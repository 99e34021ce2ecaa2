//! The cache table: at most one row per key, lazy expiry on read, upsert on
//! write, and early invalidation.
//!
//! Keys and values are held in their stored, serialized form: two structured
//! keys are the same key exactly when their stored forms are equal. Instants
//! are milliseconds since the Unix epoch (see `clock`).

use crate::clock::{
    CLOCK_LIMIT_MILLIS, MAX_TTL_HOURS, expires_at_for, expiry_fits, expiry_of, is_live, is_live_at,
    lemma_bounded_ttl_fits, now_millis,
};
use uuid::Uuid;
use vstd::prelude::*;

verus! {

/// What the table holds for one key.
pub struct CacheEntry {
    /// The row's identifier, handed back as the write receipt.
    pub id: Uuid,
    /// The stored value.
    pub value: Seq<char>,
    /// When the row was last written.
    pub created_at: i64,
    /// When the row stops being live; absent means never by time alone.
    pub expires_at: Option<i64>,
}

/// The table after a write of `value` under `key` at `now`: the key's entry
/// is replaced whole, and it keeps `id`.
pub open spec fn upserted(
    t: Map<Seq<char>, CacheEntry>,
    key: Seq<char>,
    value: Seq<char>,
    now: i64,
    expiry_hours: Option<i64>,
    id: Uuid,
) -> Map<Seq<char>, CacheEntry> {
    t.insert(
        key,
        CacheEntry { id, value, created_at: now, expires_at: expiry_of(now, expiry_hours) },
    )
}

/// The table after `key` is expired at `now`: a present entry gets `now` as
/// its expiry and keeps the rest; an absent key leaves the table as it was.
pub open spec fn expired(t: Map<Seq<char>, CacheEntry>, key: Seq<char>, now: i64) -> Map<
    Seq<char>,
    CacheEntry,
> {
    if t.contains_key(key) {
        t.insert(key, CacheEntry { expires_at: Some(now), ..t[key] })
    } else {
        t
    }
}

/// What a read of `key` at `now` yields: the value of a live entry, and
/// nothing for an absent or expired one.
pub open spec fn lookup(t: Map<Seq<char>, CacheEntry>, key: Seq<char>, now: i64) -> Option<
    Seq<char>,
> {
    if t.contains_key(key) && is_live(t[key].expires_at, now) {
        Some(t[key].value)
    } else {
        None
    }
}

/// The characters of an optional string.
pub open spec fn text_of(r: Option<String>) -> Option<Seq<char>> {
    match r {
        Some(v) => Some(v@),
        None => None,
    }
}

struct CacheRow {
    id: Uuid,
    key: String,
    value: String,
    created_at: i64,
    expires_at: Option<i64>,
}

impl CacheRow {
    closed spec fn entry(&self) -> CacheEntry {
        CacheEntry {
            id: self.id,
            value: self.value@,
            created_at: self.created_at,
            expires_at: self.expires_at,
        }
    }
}

/// Number of rows in `rows` stored under `key`.
closed spec fn count_rows(rows: Seq<CacheRow>, key: Seq<char>) -> nat
    decreases rows.len(),
{
    if rows.len() == 0 {
        0
    } else {
        count_rows(rows.drop_last(), key) + if rows.last().key@ == key {
            1nat
        } else {
            0nat
        }
    }
}

/// Among rows whose keys are pairwise distinct, a key is stored at most once.
proof fn lemma_count_distinct(rows: Seq<CacheRow>, key: Seq<char>)
    requires
        forall|i: int, j: int|
            0 <= i < j < rows.len() ==> #[trigger] rows[i].key@ != #[trigger] rows[j].key@,
    ensures
        count_rows(rows, key) == (if exists|i: int| 0 <= i < rows.len() && #[trigger] rows[i].key@
            == key {
            1nat
        } else {
            0nat
        }),
    decreases rows.len(),
{
    if rows.len() > 0 {
        let init = rows.drop_last();
        assert forall|i: int, j: int|
            0 <= i < j < init.len() implies #[trigger] init[i].key@ != #[trigger] init[j].key@ by {
            assert(init[i] == rows[i] && init[j] == rows[j]);
        }
        lemma_count_distinct(init, key);
        if exists|i: int| 0 <= i < init.len() && #[trigger] init[i].key@ == key {
            let i = choose|i: int| 0 <= i < init.len() && #[trigger] init[i].key@ == key;
            assert(rows[i] == init[i]);
            assert(rows[i].key@ != rows[rows.len() - 1].key@);
        } else if rows.last().key@ == key {
            assert(rows[rows.len() - 1].key@ == key);
        } else {
            assert forall|i: int| 0 <= i < rows.len() implies #[trigger] rows[i].key@ != key by {
                if i < rows.len() - 1 {
                    assert(init[i] == rows[i]);
                }
            }
        }
    }
}

/// The cache table.
pub struct CacheService {
    rows: Vec<CacheRow>,
    table: Ghost<Map<Seq<char>, CacheEntry>>,
}

impl View for CacheService {
    type V = Map<Seq<char>, CacheEntry>;

    closed spec fn view(&self) -> Map<Seq<char>, CacheEntry> {
        self.table@
    }
}

impl CacheService {
    /// The table is well formed: no two rows share a key, and the rows hold
    /// exactly the entries of the view.
    pub closed spec fn wf(&self) -> bool {
        &&& forall|i: int, j: int|
            0 <= i < j < self.rows.len() ==> #[trigger] self.rows[i].key@
                != #[trigger] self.rows[j].key@
        &&& forall|i: int|
            0 <= i < self.rows.len() ==> self.table@.contains_key(#[trigger] self.rows[i].key@)
                && self.table@[self.rows[i].key@] == self.rows[i].entry()
        &&& forall|k: Seq<char>|
            #[trigger] self.table@.contains_key(k) ==> exists|i: int|
                0 <= i < self.rows.len() && #[trigger] self.rows[i].key@ == k
    }

    /// How many rows are stored under `key`.
    pub closed spec fn rows_with_key(&self, key: Seq<char>) -> nat {
        count_rows(self.rows@, key)
    }

    /// An empty table.
    pub fn new() -> (r: Self)
        ensures
            r.wf(),
            r@ == Map::<Seq<char>, CacheEntry>::empty(),
    {
        CacheService { rows: Vec::new(), table: Ghost(Map::empty()) }
    }

    /// Finds the row stored under `key`.
    fn position_of(&self, key: &String) -> (r: Option<usize>)
        requires
            self.wf(),
        ensures
            match r {
                Some(i) => i < self.rows.len() && self.rows[i as int].key@ == key@,
                None => !self@.contains_key(key@),
            },
    {
        let mut i: usize = 0;
        while i < self.rows.len()
            invariant
                self.wf(),
                i <= self.rows.len(),
                forall|j: int| 0 <= j < i ==> self.rows[j].key@ != key@,
            decreases self.rows.len() - i,
        {
            if self.rows[i].key == *key {
                return Some(i);
            }
            i = i + 1;
        }
        None
    }

    /// Writes `value` under `key` at `now`, replacing whatever the key held.
    /// A new row gets `fresh_id`; an existing row keeps its identifier.
    /// Returns the identifier of the row written.
    pub fn set_with_expiry_at(
        &mut self,
        key: String,
        expiry_hours: Option<i64>,
        value: String,
        now: i64,
        fresh_id: Uuid,
    ) -> (r: Uuid)
        requires
            old(self).wf(),
            expiry_fits(now, expiry_hours),
        ensures
            final(self).wf(),
            r == (if old(self)@.contains_key(key@) {
                old(self)@[key@].id
            } else {
                fresh_id
            }),
            final(self)@ == upserted(old(self)@, key@, value@, now, expiry_hours, r),
    {
        let expires_at = expires_at_for(now, expiry_hours);
        let ghost k = key@;
        let ghost old_rows = self.rows@;
        match self.position_of(&key) {
            Some(i) => {
                let id = self.rows[i].id;
                let row = CacheRow { id, key, value, created_at: now, expires_at };
                let ghost e = row.entry();
                self.rows[i] = row;
                self.table = Ghost(self.table@.insert(k, e));
                proof {
                    assert forall|a: int, b: int|
                        0 <= a < b < self.rows.len() implies #[trigger] self.rows[a].key@
                        != #[trigger] self.rows[b].key@ by {
                        if a != i && b != i {
                            assert(self.rows[a] == old_rows[a] && self.rows[b] == old_rows[b]);
                        } else if a == i {
                            assert(self.rows[b] == old_rows[b]);
                        } else {
                            assert(self.rows[a] == old_rows[a]);
                        }
                    }
                    assert forall|a: int| 0 <= a < self.rows.len() implies self.table@.contains_key(
                        #[trigger] self.rows[a].key@,
                    ) && self.table@[self.rows[a].key@] == self.rows[a].entry() by {
                        if a != i {
                            assert(self.rows[a] == old_rows[a]);
                            assert(old_rows[a].key@ != old_rows[i as int].key@);
                        }
                    }
                    assert forall|q: Seq<char>| #[trigger] self.table@.contains_key(q) implies exists|
                        a: int,
                    | 0 <= a < self.rows.len() && #[trigger] self.rows[a].key@ == q by {
                        if q == k {
                            assert(self.rows[i as int].key@ == q);
                        } else {
                            let a = choose|a: int|
                                0 <= a < old_rows.len() && #[trigger] old_rows[a].key@ == q;
                            assert(self.rows[a] == old_rows[a]);
                        }
                    }
                }
                id
            },
            None => {
                let id = fresh_id;
                let row = CacheRow { id, key, value, created_at: now, expires_at };
                let ghost e = row.entry();
                self.rows.push(row);
                self.table = Ghost(self.table@.insert(k, e));
                proof {
                    let n = old_rows.len() as int;
                    assert forall|a: int, b: int|
                        0 <= a < b < self.rows.len() implies #[trigger] self.rows[a].key@
                        != #[trigger] self.rows[b].key@ by {
                        assert(self.rows[a] == old_rows[a]);
                        if b < n {
                            assert(self.rows[b] == old_rows[b]);
                        } else {
                            assert(old(self)@.contains_key(old_rows[a].key@));
                        }
                    }
                    assert forall|a: int| 0 <= a < self.rows.len() implies self.table@.contains_key(
                        #[trigger] self.rows[a].key@,
                    ) && self.table@[self.rows[a].key@] == self.rows[a].entry() by {
                        if a < n {
                            assert(self.rows[a] == old_rows[a]);
                            assert(old(self)@.contains_key(old_rows[a].key@));
                        }
                    }
                    assert forall|q: Seq<char>| #[trigger] self.table@.contains_key(q) implies exists|
                        a: int,
                    | 0 <= a < self.rows.len() && #[trigger] self.rows[a].key@ == q by {
                        if q == k {
                            assert(self.rows[n].key@ == q);
                        } else {
                            let a = choose|a: int|
                                0 <= a < old_rows.len() && #[trigger] old_rows[a].key@ == q;
                            assert(self.rows[a] == old_rows[a]);
                        }
                    }
                }
                id
            },
        }
    }

    /// Reads `key` at `now`: its value if the entry is live, else nothing.
    /// Expired rows stay as they are.
    pub fn get_key_at(&self, key: &String, now: i64) -> (r: Option<String>)
        requires
            self.wf(),
        ensures
            text_of(r) == lookup(self@, key@, now),
    {
        match self.position_of(key) {
            Some(i) => {
                proof {
                    assert(self@.contains_key(self.rows[i as int].key@));
                }
                if is_live_at(self.rows[i].expires_at, now) {
                    Some(self.rows[i].value.clone())
                } else {
                    None
                }
            },
            None => None,
        }
    }

    /// Expires `key` at `now`: a row under it gets `now` as its expiry, so
    /// that it reads as absent from then on; it is not removed. Returns
    /// whether such a row existed.
    pub fn expire_key_at(&mut self, key: &String, now: i64) -> (r: bool)
        requires
            old(self).wf(),
        ensures
            final(self).wf(),
            r == old(self)@.contains_key(key@),
            final(self)@ == expired(old(self)@, key@, now),
    {
        let ghost old_rows = self.rows@;
        match self.position_of(key) {
            Some(i) => {
                let ghost k = key@;
                proof {
                    assert(self@.contains_key(self.rows[i as int].key@));
                }
                self.rows[i].expires_at = Some(now);
                let ghost e = self.rows[i as int].entry();
                self.table = Ghost(self.table@.insert(k, e));
                proof {
                    assert(e == CacheEntry { expires_at: Some(now), ..old(self)@[k] });
                    assert forall|a: int, b: int|
                        0 <= a < b < self.rows.len() implies #[trigger] self.rows[a].key@
                        != #[trigger] self.rows[b].key@ by {
                        assert(self.rows[a].key@ == old_rows[a].key@);
                        assert(self.rows[b].key@ == old_rows[b].key@);
                    }
                    assert forall|a: int| 0 <= a < self.rows.len() implies self.table@.contains_key(
                        #[trigger] self.rows[a].key@,
                    ) && self.table@[self.rows[a].key@] == self.rows[a].entry() by {
                        if a != i {
                            assert(self.rows[a] == old_rows[a]);
                            assert(old_rows[a].key@ != old_rows[i as int].key@);
                        }
                    }
                    assert forall|q: Seq<char>| #[trigger] self.table@.contains_key(q) implies exists|
                        a: int,
                    | 0 <= a < self.rows.len() && #[trigger] self.rows[a].key@ == q by {
                        let a = choose|a: int|
                            0 <= a < old_rows.len() && #[trigger] old_rows[a].key@ == q;
                        assert(self.rows[a].key@ == old_rows[a].key@);
                    }
                }
                true
            },
            None => false,
        }
    }
}

impl CacheService {
    /// Writes `value` under `key` now, by the system clock, with an optional
    /// time-to-live in hours. A new row gets a fresh random identifier; an
    /// existing row keeps its own. Returns the identifier of the row written.
    pub fn set_with_expiry(&mut self, key: String, expiry_hours: Option<i64>, value: String) -> (r:
        Uuid)
        requires
            old(self).wf(),
            match expiry_hours {
                None => true,
                Some(h) => -MAX_TTL_HOURS <= h <= MAX_TTL_HOURS,
            },
        ensures
            final(self).wf(),
            old(self)@.contains_key(key@) ==> r == old(self)@[key@].id,
            exists|now: i64|
                0 <= now < CLOCK_LIMIT_MILLIS && final(self)@ == upserted(
                    old(self)@,
                    key@,
                    value@,
                    now,
                    expiry_hours,
                    r,
                ),
    {
        let now = now_millis();
        proof {
            lemma_bounded_ttl_fits(now, expiry_hours);
        }
        let fresh_id = Uuid::new_v4();
        self.set_with_expiry_at(key, expiry_hours, value, now, fresh_id)
    }

    /// Reads `key` now, by the system clock: its value if the entry is live,
    /// else nothing.
    pub fn get_key(&self, key: &String) -> (r: Option<String>)
        requires
            self.wf(),
        ensures
            exists|now: i64| 0 <= now < CLOCK_LIMIT_MILLIS && text_of(r) == lookup(self@, key@, now),
    {
        let now = now_millis();
        self.get_key_at(key, now)
    }

    /// Expires `key` now, by the system clock. Returns whether a row was
    /// stored under it.
    pub fn expire_key(&mut self, key: &String) -> (r: bool)
        requires
            old(self).wf(),
        ensures
            final(self).wf(),
            r == old(self)@.contains_key(key@),
            exists|now: i64| 0 <= now < CLOCK_LIMIT_MILLIS && final(self)@ == expired(old(self)@, key@, now),
    {
        let now = now_millis();
        self.expire_key_at(key, now)
    }
}

/// A well-formed table stores exactly one row under each key it holds, and
/// none under any other key.
pub proof fn lemma_one_row_per_key(s: &CacheService, key: Seq<char>)
    requires
        s.wf(),
    ensures
        s.rows_with_key(key) == (if s@.contains_key(key) {
            1nat
        } else {
            0nat
        }),
{
    lemma_count_distinct(s.rows@, key);
    if s@.contains_key(key) {
        let i = choose|i: int| 0 <= i < s.rows.len() && #[trigger] s.rows[i].key@ == key;
        assert(s.rows@[i].key@ == key);
    } else {
        if exists|i: int| 0 <= i < s.rows@.len() && #[trigger] s.rows@[i].key@ == key {
            let i = choose|i: int| 0 <= i < s.rows@.len() && #[trigger] s.rows@[i].key@ == key;
            assert(s.rows[i].key@ == key);
        }
    }
}

} // verus!
