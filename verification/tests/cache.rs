use midiosch::cache::{is_expired, CacheEntry, LivenessCache};
use midiosch::translate::EncodedValue;

fn rows(cache: &LivenessCache) -> Vec<(String, EncodedValue)> {
    cache.snapshot()
}

fn row(address: &str, value: EncodedValue) -> (String, EncodedValue) {
    (address.to_string(), value)
}

#[test]
fn a_new_cache_is_empty() {
    let cache = LivenessCache::new();
    assert_eq!(cache.len(), 0);
    assert_eq!(rows(&cache), vec![]);
    assert_eq!(cache.get("/note/0/60"), None);
}

#[test]
fn upsert_adds_a_row_for_a_new_address() {
    let mut cache = LivenessCache::new();
    cache.upsert("/note/0/60".to_string(), EncodedValue::Raw(100), 5);
    assert_eq!(cache.len(), 1);
    assert_eq!(rows(&cache), vec![row("/note/0/60", EncodedValue::Raw(100))]);
    assert_eq!(
        cache.get("/note/0/60"),
        Some(CacheEntry { timestamp: 5, value: EncodedValue::Raw(100) })
    );
}

#[test]
fn repeated_upserts_leave_one_row_with_the_last_value() {
    let mut cache = LivenessCache::new();
    for (step, velocity) in [10u8, 20, 30, 40, 50].into_iter().enumerate() {
        cache.upsert("/note/0/60".to_string(), EncodedValue::Raw(velocity), 100 + step as u64);
        assert_eq!(cache.len(), 1);
    }
    assert_eq!(rows(&cache), vec![row("/note/0/60", EncodedValue::Raw(50))]);
    let entry = cache.get("/note/0/60").unwrap();
    assert_eq!(entry.timestamp, 104);
    assert_eq!(entry.value, EncodedValue::Raw(50));
}

#[test]
fn upserts_to_several_addresses_keep_one_row_each() {
    let mut cache = LivenessCache::new();
    cache.upsert("/note/0/60".to_string(), EncodedValue::Raw(1), 1);
    cache.upsert("/cc/1/7".to_string(), EncodedValue::Normalized(64), 2);
    cache.upsert("/note/0/60".to_string(), EncodedValue::Raw(2), 3);
    cache.upsert("/note/0/61".to_string(), EncodedValue::Raw(3), 4);
    cache.upsert("/cc/1/7".to_string(), EncodedValue::Normalized(65), 5);
    assert_eq!(cache.len(), 3);
    assert_eq!(
        rows(&cache),
        vec![
            row("/note/0/60", EncodedValue::Raw(2)),
            row("/cc/1/7", EncodedValue::Normalized(65)),
            row("/note/0/61", EncodedValue::Raw(3)),
        ]
    );
    assert_eq!(cache.get("/note/0/60").unwrap().timestamp, 3);
    assert_eq!(cache.get("/cc/1/7").unwrap().timestamp, 5);
    assert_eq!(cache.get("/note/0/61").unwrap().timestamp, 4);
    assert_eq!(cache.get("/note/0/62"), None);
}

#[test]
fn an_entry_survives_a_sweep_just_before_and_at_its_time_to_live() {
    let mut cache = LivenessCache::new();
    cache.upsert("/note/0/60".to_string(), EncodedValue::Raw(100), 1_000);
    cache.sweep(1_000 + 10_000 - 1, 10_000);
    assert_eq!(cache.len(), 1);
    cache.sweep(1_000 + 10_000, 10_000);
    assert_eq!(cache.len(), 1);
    assert_eq!(rows(&cache), vec![row("/note/0/60", EncodedValue::Raw(100))]);
}

#[test]
fn an_entry_is_removed_by_a_sweep_just_after_its_time_to_live() {
    let mut cache = LivenessCache::new();
    cache.upsert("/note/0/60".to_string(), EncodedValue::Raw(100), 1_000);
    cache.sweep(1_000 + 10_000 + 1, 10_000);
    assert_eq!(cache.len(), 0);
    assert_eq!(rows(&cache), vec![]);
    assert_eq!(cache.get("/note/0/60"), None);
}

#[test]
fn expiry_is_strictly_after_the_time_to_live() {
    assert!(!is_expired(1_000, 1_000, 0));
    assert!(is_expired(1_000, 1_001, 0));
    assert!(!is_expired(1_000, 10_999, 10_000));
    assert!(!is_expired(1_000, 11_000, 10_000));
    assert!(is_expired(1_000, 11_001, 10_000));
    assert!(!is_expired(0, u64::MAX, u64::MAX));
    assert!(is_expired(0, u64::MAX, u64::MAX - 1));
}

#[test]
fn a_row_stamped_later_than_now_has_not_expired() {
    assert!(!is_expired(500, 100, 0));
    assert!(!is_expired(u64::MAX, 0, 0));
    let mut cache = LivenessCache::new();
    cache.upsert("/cc/0/1".to_string(), EncodedValue::Raw(1), 500);
    cache.sweep(100, 0);
    assert_eq!(cache.len(), 1);
}

#[test]
fn a_sweep_keeps_the_order_of_what_stays() {
    let mut cache = LivenessCache::new();
    cache.upsert("/a".to_string(), EncodedValue::Raw(1), 10);
    cache.upsert("/b".to_string(), EncodedValue::Raw(2), 20);
    cache.upsert("/c".to_string(), EncodedValue::Raw(3), 30);
    cache.upsert("/d".to_string(), EncodedValue::Raw(4), 40);
    cache.upsert("/e".to_string(), EncodedValue::Raw(5), 50);
    cache.upsert("/b".to_string(), EncodedValue::Raw(6), 60);
    cache.sweep(60, 25);
    assert_eq!(
        rows(&cache),
        vec![
            row("/b", EncodedValue::Raw(6)),
            row("/d", EncodedValue::Raw(4)),
            row("/e", EncodedValue::Raw(5)),
        ]
    );
    cache.sweep(100, 40);
    assert_eq!(rows(&cache), vec![row("/b", EncodedValue::Raw(6))]);
    cache.sweep(101, 40);
    assert_eq!(rows(&cache), vec![]);
}

#[test]
fn a_refreshed_entry_lives_on_from_its_last_write() {
    let mut cache = LivenessCache::new();
    cache.upsert("/note/0/60".to_string(), EncodedValue::Raw(1), 0);
    cache.upsert("/note/0/61".to_string(), EncodedValue::Raw(2), 0);
    cache.upsert("/note/0/60".to_string(), EncodedValue::Raw(3), 9_000);
    cache.sweep(12_000, 10_000);
    assert_eq!(rows(&cache), vec![row("/note/0/60", EncodedValue::Raw(3))]);
    cache.sweep(19_000, 10_000);
    assert_eq!(cache.len(), 1);
    cache.sweep(19_001, 10_000);
    assert_eq!(cache.len(), 0);
}

#[test]
fn a_swept_address_gets_a_new_row_at_the_end() {
    let mut cache = LivenessCache::new();
    cache.upsert("/a".to_string(), EncodedValue::Raw(1), 0);
    cache.upsert("/b".to_string(), EncodedValue::Raw(2), 50);
    cache.sweep(60, 20);
    cache.upsert("/a".to_string(), EncodedValue::Raw(3), 60);
    assert_eq!(rows(&cache), vec![row("/b", EncodedValue::Raw(2)), row("/a", EncodedValue::Raw(3))]);
}

#[test]
fn sweeping_an_empty_cache_leaves_it_empty() {
    let mut cache = LivenessCache::new();
    cache.sweep(1_000_000, 0);
    assert_eq!(cache.len(), 0);
}

#[test]
fn addresses_that_differ_in_one_character_are_different_rows() {
    let mut cache = LivenessCache::new();
    cache.upsert("/note/1/10".to_string(), EncodedValue::Raw(1), 0);
    cache.upsert("/note/11/0".to_string(), EncodedValue::Raw(2), 0);
    cache.upsert("/note/1/1".to_string(), EncodedValue::Raw(3), 0);
    cache.upsert("".to_string(), EncodedValue::Raw(4), 0);
    assert_eq!(cache.len(), 4);
    assert_eq!(cache.get("/note/1/1").unwrap().value, EncodedValue::Raw(3));
    assert_eq!(cache.get("").unwrap().value, EncodedValue::Raw(4));
    assert_eq!(cache.get("/note/1"), None);
}
