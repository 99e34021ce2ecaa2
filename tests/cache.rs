use cache_service::clock::{expires_at_for, is_live_at, MILLIS_PER_HOUR};
use cache_service::import::{ImportDetails, ImportFailStep};
use cache_service::store::CacheService;
use uuid::Uuid;

const HOUR: i64 = MILLIS_PER_HOUR;

fn key(s: &str) -> String {
    s.to_string()
}

#[test]
fn unwritten_key_reads_absent() {
    let mut store = CacheService::new();
    assert_eq!(store.get_key_at(&key("a"), 0), None);
    store.set_with_expiry_at(key("b"), None, key("x"), 0, Uuid::from_u128(1));
    assert_eq!(store.get_key_at(&key("a"), 10), None);
    assert_eq!(store.get_key(&key("a")), None);
}

#[test]
fn second_write_replaces_first() {
    let mut store = CacheService::new();
    let r1 = store.set_with_expiry_at(key("k"), None, key("v1"), 100, Uuid::from_u128(7));
    let r2 = store.set_with_expiry_at(key("k"), None, key("v2"), 200, Uuid::from_u128(8));
    assert_eq!(r1, Uuid::from_u128(7));
    assert_eq!(r2, Uuid::from_u128(7));
    assert_eq!(store.get_key_at(&key("k"), 300), Some(key("v2")));
    assert_eq!(store.get_key_at(&key("k"), i64::MAX), Some(key("v2")));
}

#[test]
fn zero_ttl_is_already_expired() {
    let mut store = CacheService::new();
    store.set_with_expiry_at(key("k"), Some(0), key("v"), 1_000, Uuid::from_u128(1));
    assert_eq!(store.get_key_at(&key("k"), 1_000), None);
    store.set_with_expiry(key("k"), Some(0), key("v"));
    assert_eq!(store.get_key(&key("k")), None);
}

#[test]
fn negative_ttl_is_already_expired() {
    let mut store = CacheService::new();
    store.set_with_expiry_at(key("k"), Some(-3), key("v"), 1_000, Uuid::from_u128(1));
    assert_eq!(store.get_key_at(&key("k"), 1_000), None);
    assert_eq!(store.get_key_at(&key("k"), 1_000 - 3 * HOUR), None);
}

#[test]
fn positive_ttl_lasts_its_hours() {
    let mut store = CacheService::new();
    let now = 5_000;
    store.set_with_expiry_at(key("k"), Some(2), key("v"), now, Uuid::from_u128(1));
    assert_eq!(store.get_key_at(&key("k"), now), Some(key("v")));
    assert_eq!(store.get_key_at(&key("k"), now + 2 * HOUR - 1), Some(key("v")));
    assert_eq!(store.get_key_at(&key("k"), now + 2 * HOUR), None);
    assert_eq!(store.get_key_at(&key("k"), now + 3 * HOUR), None);
}

#[test]
fn positive_ttl_with_system_clock() {
    let mut store = CacheService::new();
    store.set_with_expiry(key("k"), Some(1), key("v"));
    assert_eq!(store.get_key(&key("k")), Some(key("v")));
}

#[test]
fn expire_on_missing_key_is_false() {
    let mut store = CacheService::new();
    assert!(!store.expire_key_at(&key("k"), 10));
    assert!(!store.expire_key(&key("k")));
    assert_eq!(store.get_key_at(&key("k"), 0), None);
    store.set_with_expiry_at(key("k"), None, key("v"), 0, Uuid::from_u128(1));
    assert_eq!(store.get_key_at(&key("k"), 0), Some(key("v")));
}

#[test]
fn expire_on_live_row_hides_it() {
    let mut store = CacheService::new();
    store.set_with_expiry_at(key("k"), Some(24), key("v"), 0, Uuid::from_u128(1));
    assert!(store.expire_key_at(&key("k"), HOUR));
    assert_eq!(store.get_key_at(&key("k"), HOUR), None);
    assert_eq!(store.get_key_at(&key("k"), 2 * HOUR), None);
}

#[test]
fn expire_with_system_clock() {
    let mut store = CacheService::new();
    store.set_with_expiry(key("k"), None, key("v"));
    assert!(store.expire_key(&key("k")));
    assert_eq!(store.get_key(&key("k")), None);
}

#[test]
fn expire_twice_reads_as_once() {
    let mut once = CacheService::new();
    let mut twice = CacheService::new();
    for s in [&mut once, &mut twice] {
        s.set_with_expiry_at(key("k"), None, key("v"), 0, Uuid::from_u128(1));
        s.set_with_expiry_at(key("j"), None, key("w"), 0, Uuid::from_u128(2));
    }
    assert!(once.expire_key_at(&key("k"), 10));
    assert!(twice.expire_key_at(&key("k"), 10));
    assert!(twice.expire_key_at(&key("k"), 20));
    for t in [20, 30, 1_000] {
        for k in ["k", "j", "z"] {
            assert_eq!(once.get_key_at(&key(k), t), twice.get_key_at(&key(k), t));
        }
    }
}

#[test]
fn many_writes_leave_one_of_the_values() {
    let mut store = CacheService::new();
    let values = ["a", "b", "c", "d", "e"];
    let mut receipts = Vec::new();
    for v in values.iter() {
        receipts.push(store.set_with_expiry(key("k"), None, key(v)));
    }
    let got = store.get_key(&key("k")).unwrap();
    assert!(values.iter().any(|v| *v == got));
    assert_eq!(got, key("e"));
    assert!(receipts.iter().all(|r| *r == receipts[0]));
}

#[test]
fn writes_to_other_keys_are_independent() {
    let mut store = CacheService::new();
    store.set_with_expiry_at(key("a"), None, key("1"), 0, Uuid::from_u128(1));
    store.set_with_expiry_at(key("b"), Some(1), key("2"), 0, Uuid::from_u128(2));
    assert!(store.expire_key_at(&key("b"), 5));
    assert_eq!(store.get_key_at(&key("a"), 10), Some(key("1")));
    assert_eq!(store.get_key_at(&key("b"), 10), None);
}

#[test]
fn rewrite_after_expiry_is_live_again() {
    let mut store = CacheService::new();
    let r1 = store.set_with_expiry_at(key("k"), Some(1), key("v"), 0, Uuid::from_u128(1));
    assert_eq!(store.get_key_at(&key("k"), 2 * HOUR), None);
    let r2 = store.set_with_expiry_at(key("k"), Some(1), key("w"), 2 * HOUR, Uuid::from_u128(2));
    assert_eq!(r1, r2);
    assert_eq!(store.get_key_at(&key("k"), 2 * HOUR), Some(key("w")));
}

#[test]
fn search_results_scenario() {
    let mut store = CacheService::new();
    let k = key(r#"{"SearchResults":{"query":"godfather"}}"#);
    let payload = key(r#"{"SearchResults":{"items":["The Godfather","The Godfather Part II"]}}"#);
    let now = 1_700_000_000_000;
    let receipt = store.set_with_expiry_at(k.clone(), Some(24), payload.clone(), now, Uuid::new_v4());
    assert_eq!(receipt.get_version_num(), 4);
    assert_eq!(store.get_key_at(&k, now + 23 * HOUR), Some(payload.clone()));
    assert!(store.expire_key_at(&k, now + 23 * HOUR));
    assert_eq!(store.get_key_at(&k, now + 23 * HOUR), None);
}

#[test]
fn expiry_instant_is_hours_after_write() {
    assert_eq!(expires_at_for(1_000, None), None);
    assert_eq!(expires_at_for(1_000, Some(24)), Some(1_000 + 86_400_000));
    assert_eq!(expires_at_for(1_000, Some(-1)), Some(1_000 - 3_600_000));
    assert_eq!(expires_at_for(0, Some(0)), Some(0));
}

#[test]
fn liveness_is_strictly_before_expiry() {
    assert!(is_live_at(None, i64::MAX));
    assert!(is_live_at(Some(10), 9));
    assert!(!is_live_at(Some(10), 10));
    assert!(!is_live_at(Some(10), 11));
}

#[test]
fn import_records_compare_by_fields() {
    assert_eq!(ImportDetails { total: 3 }, ImportDetails { total: 3 });
    assert_ne!(ImportDetails { total: 3 }, ImportDetails { total: 4 });
    assert_ne!(ImportFailStep::ReviewConversion, ImportFailStep::InputTransformation);
}
