//! What holds of the cache across calls, stated over the table model that
//! the operations' contracts use.

use crate::clock::{MILLIS_PER_HOUR, expiry_fits};
use crate::store::{CacheEntry, CacheService, expired, lemma_one_row_per_key, lookup, upserted};
use uuid::Uuid;
use vstd::prelude::*;

verus! {

/// One write to the cache: the value, the instant, the time-to-live in
/// hours and the identifier that a new row would get.
pub struct Write {
    pub value: Seq<char>,
    pub now: i64,
    pub expiry_hours: Option<i64>,
    pub id: Uuid,
}

/// The table after the writes `ws` to `key`, applied in order.
pub open spec fn upserted_all(t: Map<Seq<char>, CacheEntry>, key: Seq<char>, ws: Seq<Write>) -> Map<
    Seq<char>,
    CacheEntry,
>
    decreases ws.len(),
{
    if ws.len() == 0 {
        t
    } else {
        let w = ws.last();
        upserted(upserted_all(t, key, ws.drop_last()), key, w.value, w.now, w.expiry_hours, w.id)
    }
}

/// A key that was never written reads as absent, at every instant.
pub proof fn law_unwritten_key_is_absent(t: Map<Seq<char>, CacheEntry>, key: Seq<char>, now: i64)
    requires
        !t.contains_key(key),
    ensures
        lookup(t, key, now) is None,
{
}

/// Two writes to one key without a time-to-live: a read returns the second
/// value, and the table keeps exactly one row for the key.
pub proof fn law_last_write_wins(
    s: &CacheService,
    t: Map<Seq<char>, CacheEntry>,
    key: Seq<char>,
    v1: Seq<char>,
    v2: Seq<char>,
    now1: i64,
    now2: i64,
    id1: Uuid,
    id2: Uuid,
    later: i64,
)
    requires
        s.wf(),
        s@ == upserted(upserted(t, key, v1, now1, None, id1), key, v2, now2, None, id2),
    ensures
        lookup(s@, key, later) == Some(v2),
        s.rows_with_key(key) == 1,
{
    lemma_one_row_per_key(s, key);
}

/// A write with a time-to-live of zero or fewer hours is already expired:
/// it reads as absent from the instant of the write on.
pub proof fn law_nonpositive_ttl_is_expired(
    t: Map<Seq<char>, CacheEntry>,
    key: Seq<char>,
    value: Seq<char>,
    now: i64,
    hours: i64,
    id: Uuid,
    later: i64,
)
    requires
        hours <= 0,
        expiry_fits(now, Some(hours)),
        now <= later,
    ensures
        lookup(upserted(t, key, value, now, Some(hours), id), key, later) is None,
{
}

/// A write with a positive time-to-live of `hours` reads back its value
/// until `hours` hours have passed, and as absent from then on.
pub proof fn law_positive_ttl_lasts_its_hours(
    t: Map<Seq<char>, CacheEntry>,
    key: Seq<char>,
    value: Seq<char>,
    now: i64,
    hours: i64,
    id: Uuid,
    later: i64,
)
    requires
        hours > 0,
        expiry_fits(now, Some(hours)),
    ensures
        lookup(upserted(t, key, value, now, Some(hours), id), key, now) == Some(value),
        now <= later < now + hours * MILLIS_PER_HOUR ==> lookup(
            upserted(t, key, value, now, Some(hours), id),
            key,
            later,
        ) == Some(value),
        later >= now + hours * MILLIS_PER_HOUR ==> lookup(
            upserted(t, key, value, now, Some(hours), id),
            key,
            later,
        ) is None,
{
}

/// Expiring a key without a row changes nothing; expiring a key with a row
/// makes it read as absent from that instant on, whatever its time-to-live.
pub proof fn law_expire_hides_entry(t: Map<Seq<char>, CacheEntry>, key: Seq<char>, now: i64, later: i64)
    requires
        now <= later,
    ensures
        !t.contains_key(key) ==> expired(t, key, now) == t,
        lookup(expired(t, key, now), key, later) is None,
        expired(t, key, now).dom() == t.dom(),
{
    if t.contains_key(key) {
        assert(expired(t, key, now).dom() =~= t.dom());
    }
}

/// Expiring a key twice reads the same as expiring it once: the same keys
/// are held, every read from the second call on agrees, and at one instant
/// the two tables are equal.
pub proof fn law_expire_is_idempotent(
    t: Map<Seq<char>, CacheEntry>,
    key: Seq<char>,
    now1: i64,
    now2: i64,
)
    requires
        now1 <= now2,
    ensures
        expired(expired(t, key, now1), key, now2).dom() == expired(t, key, now1).dom(),
        forall|k: Seq<char>, later: i64|
            now2 <= later ==> #[trigger] lookup(expired(expired(t, key, now1), key, now2), k, later)
                == lookup(expired(t, key, now1), k, later),
        now1 == now2 ==> expired(expired(t, key, now1), key, now2) == expired(t, key, now1),
{
    let once = expired(t, key, now1);
    let twice = expired(once, key, now2);
    if t.contains_key(key) {
        assert(twice.dom() =~= once.dom());
        if now1 == now2 {
            assert(twice =~= once);
        }
    }
}

/// Any number of writes to one key, in any order, leave exactly one entry
/// for it, holding one of the written values (the last), and no other key
/// changes. A table with that view holds exactly one row for the key.
pub proof fn law_writes_leave_one_row(
    s: &CacheService,
    t: Map<Seq<char>, CacheEntry>,
    key: Seq<char>,
    ws: Seq<Write>,
)
    requires
        ws.len() > 0,
        s.wf(),
        s@ == upserted_all(t, key, ws),
    ensures
        s@.contains_key(key),
        exists|i: int| 0 <= i < ws.len() && s@[key].value == #[trigger] ws[i].value,
        forall|k: Seq<char>| k != key ==> #[trigger] s@.get(k) == t.get(k),
        s.rows_with_key(key) == 1,
{
    lemma_other_keys_untouched(t, key, ws);
    assert(s@[key].value == ws[ws.len() - 1].value);
    lemma_one_row_per_key(s, key);
}

proof fn lemma_other_keys_untouched(t: Map<Seq<char>, CacheEntry>, key: Seq<char>, ws: Seq<Write>)
    ensures
        forall|k: Seq<char>| k != key ==> #[trigger] upserted_all(t, key, ws).get(k) == t.get(k),
    decreases ws.len(),
{
    if ws.len() > 0 {
        let prev = upserted_all(t, key, ws.drop_last());
        lemma_other_keys_untouched(t, key, ws.drop_last());
        assert forall|k: Seq<char>| k != key implies #[trigger] upserted_all(t, key, ws).get(k)
            == t.get(k) by {
            assert(prev.get(k) == t.get(k));
            let w = ws.last();
            assert(upserted_all(t, key, ws) == upserted(prev, key, w.value, w.now, w.expiry_hours, w.id));
        }
    }
}

} // verus!
