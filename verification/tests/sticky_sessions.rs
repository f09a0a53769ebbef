//! Session stores.

use std::sync::{Arc, Mutex};

use praxis_filter::sticky_sessions::{
    EvictionPolicy, SessionStore, SessionStoreRegistry, StoreBounds, EVICTION_SECOND_CHANCES,
};

const MS: u64 = 1_000_000;
const SEC: u64 = 1_000 * MS;

/// A store and the clock it is read at.
struct Timed {
    store: SessionStore,
    now: u64,
}

impl Timed {
    fn new(max_entries: u64, ttl: u64, eviction: EvictionPolicy) -> Self {
        let now = 7 * SEC;
        Self {
            store: SessionStore::new(max_entries, ttl, eviction, now),
            now,
        }
    }

    fn sleep(&mut self, nanos: u64) {
        self.now += nanos;
    }

    fn put(&mut self, key: &str, endpoint: &str) {
        self.now += 1;
        self.store.put(key, endpoint.to_owned(), self.now);
    }

    fn get(&mut self, key: &str) -> Option<String> {
        self.now += 1;
        self.store.get(key, self.now)
    }
}

#[test]
fn put_and_get() {
    let mut store = Timed::new(100, 3600 * SEC, EvictionPolicy::Lru);
    store.put("sess1", "10.0.0.1:80");
    assert_eq!(store.get("sess1").as_deref(), Some("10.0.0.1:80"));
}

#[test]
fn get_missing_returns_none() {
    let mut store = Timed::new(100, 3600 * SEC, EvictionPolicy::Lru);
    assert!(store.get("nonexistent").is_none());
}

#[test]
fn expired_entry_returns_none() {
    let mut store = Timed::new(100, MS, EvictionPolicy::Lru);
    store.put("sess1", "10.0.0.1:80");
    store.sleep(5 * MS);
    assert!(store.get("sess1").is_none());
    assert!(store.store.is_empty());
}

#[test]
fn expired_removal_spares_a_concurrently_refreshed_binding() {
    let mut store = Timed::new(100, 20 * MS, EvictionPolicy::Lru);
    store.put("sess1", "10.0.0.1:80");
    store.sleep(30 * MS);

    let observed = store.now;
    store.put("sess1", "10.0.0.2:80");

    assert!(
        !store.store.remove_if_expired("sess1", observed),
        "a binding refreshed since the expiry observation must not be removed"
    );
    assert_eq!(
        store.get("sess1").as_deref(),
        Some("10.0.0.2:80"),
        "the concurrently installed endpoint must survive"
    );
}

#[test]
fn expired_removal_still_removes_a_stale_binding() {
    let mut store = Timed::new(100, 20 * MS, EvictionPolicy::Lru);
    store.put("sess1", "10.0.0.1:80");
    store.sleep(30 * MS);

    assert!(
        store.store.remove_if_expired("sess1", store.now),
        "an untouched expired binding must still be removed"
    );
    assert!(store.store.is_empty(), "the store should be empty after lazy expiry");
}

#[test]
fn remove_entry() {
    let mut store = Timed::new(100, 3600 * SEC, EvictionPolicy::Lru);
    store.put("sess1", "10.0.0.1:80");
    store.store.remove("sess1");
    assert!(store.get("sess1").is_none());
}

#[test]
fn eviction_at_capacity() {
    let mut store = Timed::new(2, 3600 * SEC, EvictionPolicy::Lru);
    store.put("a", "ep1");
    store.sleep(MS);
    store.put("b", "ep2");

    // Access "a" to make it recent
    store.get("a");
    store.sleep(MS);

    // Insert "c": should evict "b" (least recently accessed)
    store.put("c", "ep3");

    assert!(store.get("a").is_some());
    assert!(store.get("b").is_none());
    assert!(store.get("c").is_some());
}

#[test]
fn sweep_removes_expired() {
    let mut store = Timed::new(100, MS, EvictionPolicy::Lru);
    store.put("a", "ep1");
    store.put("b", "ep2");
    store.sleep(5 * MS);
    store.store.sweep_expired(store.now);
    assert_eq!(store.store.len(), 0);
}

#[test]
fn registry_stores_and_retrieves() {
    let mut reg = SessionStoreRegistry::new();
    assert!(reg.is_empty());
    let store = SessionStore::new(100, 60 * SEC, EvictionPolicy::Lru, 0);
    reg.insert("cluster-a", store, Mutex::new);
    assert!(reg.get("cluster-a").is_some());
    assert!(reg.get("cluster-b").is_none());
    assert!(!reg.is_empty());
}

#[test]
fn sliding_ttl_refreshes_on_access() {
    let mut store = Timed::new(100, 50 * MS, EvictionPolicy::Lru);
    store.put("sess1", "10.0.0.1:80");

    // Access every 30ms: each access should reset the 50ms idle timeout
    for _ in 0..5 {
        store.sleep(30 * MS);
        assert!(
            store.get("sess1").is_some(),
            "entry should still be alive because access resets the sliding TTL"
        );
    }

    // Now wait past the full TTL without accessing
    store.sleep(60 * MS);
    assert!(
        store.get("sess1").is_none(),
        "entry should expire after idle period exceeds TTL"
    );
}

#[test]
fn queue_eviction_always_finds_a_victim() {
    let cap = (EVICTION_SECOND_CHANCES as u64) * 3;
    let mut store = Timed::new(cap, 3600 * SEC, EvictionPolicy::Lru);
    for i in 0..cap {
        store.put(&format!("seed-{i}"), "ep");
    }
    for i in 0..cap * 2 {
        store.put(&format!("new-{i}"), "ep");
        assert_eq!(
            store.store.len() as u64,
            cap,
            "every at-capacity insert must evict exactly one victim (insert {i})"
        );
    }
}

#[test]
fn eviction_queue_stays_bounded_under_below_capacity_churn() {
    let cap = 8_u64;
    let mut store = Timed::new(cap, 3600 * SEC, EvictionPolicy::Lru);
    for i in 0..200 {
        let key = format!("churn-{i}");
        store.put(&key, "ep");
        store.store.remove(&key);
    }
    assert!(
        store.store.eviction_queue_len() as u64 <= cap * 2,
        "eviction queue must stay bounded under churn, got {}",
        store.store.eviction_queue_len()
    );
}

#[test]
fn eviction_queue_stays_bounded_under_recurring_key_churn() {
    let cap = 8_u64;
    let mut store = Timed::new(cap, 3600 * SEC, EvictionPolicy::Lru);
    for _ in 0..1_000 {
        store.put("recurring", "ep");
        store.store.remove("recurring");
    }
    assert!(
        store.store.eviction_queue_len() as u64 <= cap * 2,
        "eviction queue must stay bounded under recurring-key churn, got {}",
        store.store.eviction_queue_len()
    );
}

#[test]
fn stale_queue_occurrence_does_not_evict_recreated_entry() {
    let mut store = Timed::new(2, 3600 * SEC, EvictionPolicy::Ttl);
    store.put("a", "ep1");
    store.put("victim", "ep2");
    store.store.remove("a");
    store.put("a", "ep3");

    store.put("newer", "ep4");
    assert!(
        store.get("victim").is_none(),
        "the oldest-created live entry must be the victim"
    );
    assert!(
        store.get("a").is_some(),
        "a re-created entry must not be evicted via its stale queue occurrence"
    );
    assert!(store.get("newer").is_some(), "new entry present");
}

#[test]
fn hot_entries_bounded_second_chances_still_evict() {
    let mut store = Timed::new(2, 3600 * SEC, EvictionPolicy::Lru);
    store.put("a", "ep1");
    store.put("b", "ep2");
    store.get("a");
    store.get("b");

    store.put("c", "ep3");
    assert_eq!(store.store.len(), 2, "hot entries must not prevent eviction");
    assert!(store.get("c").is_some(), "the new entry must be present");
}

#[test]
fn ttl_policy_evicts_oldest_created_exactly() {
    let mut store = Timed::new(2, 3600 * SEC, EvictionPolicy::Ttl);
    store.put("old", "ep1");
    store.sleep(MS);
    store.put("young", "ep2");
    // Access "old": irrelevant for TTL eviction order.
    store.get("old");

    store.put("newer", "ep3");
    assert!(store.get("old").is_none(), "TTL policy evicts the oldest-created entry");
    assert!(store.get("young").is_some(), "younger entry survives");
    assert!(store.get("newer").is_some(), "new entry present");
}

#[test]
fn eviction_at_capacity_is_bounded_not_linear() {
    let cap = 30_000_u64;
    let mut store = Timed::new(cap, 3600 * SEC, EvictionPolicy::Lru);
    for i in 0..cap {
        store.put(&format!("k{i}"), "ep");
    }
    let started = std::time::Instant::now();
    for i in 0..3_000 {
        store.put(&format!("x{i}"), "ep");
    }
    let elapsed = started.elapsed();
    assert!(
        elapsed < std::time::Duration::from_secs(3),
        "eviction at capacity must be sub-linear; 3000 inserts took {elapsed:?}"
    );
    assert!(store.store.len() as u64 <= cap, "store must stay within capacity");
}

#[test]
fn put_updates_existing_entry() {
    let mut store = Timed::new(100, 3600 * SEC, EvictionPolicy::Lru);
    store.put("sess1", "10.0.0.1:80");
    store.put("sess1", "10.0.0.2:80");
    assert_eq!(store.get("sess1").as_deref(), Some("10.0.0.2:80"));
    assert_eq!(store.store.len(), 1);
}

#[test]
fn second_chances_are_bounded() {
    let cap = EVICTION_SECOND_CHANCES as u64 + 2;
    let mut store = Timed::new(cap, 3600 * SEC, EvictionPolicy::Lru);
    for i in 0..cap {
        store.put(&format!("k{i}"), "ep");
    }
    for i in 0..cap {
        store.get(&format!("k{i}"));
    }
    store.put("new", "ep");
    assert_eq!(store.store.len() as u64, cap);
    assert!(
        store.get(&format!("k{EVICTION_SECOND_CHANCES}")).is_none(),
        "the entry after the last second chance leaves"
    );
    assert!(store.get("k0").is_some());
}

#[test]
fn expired_entries_get_no_second_chance() {
    let mut store = Timed::new(2, 10 * MS, EvictionPolicy::Lru);
    store.put("a", "ep1");
    store.get("a");
    store.sleep(8 * MS);
    store.put("b", "ep2");
    store.sleep(5 * MS);
    store.put("c", "ep3");
    assert!(store.get("b").is_some());
    assert_eq!(store.store.len(), 2);
}

#[test]
fn misses_sweep_at_most_every_half_ttl() {
    let mut store = Timed::new(100, 100 * MS, EvictionPolicy::Lru);
    store.put("a", "ep1");
    store.sleep(40 * MS);
    assert!(store.get("absent").is_none());
    assert_eq!(store.store.len(), 1, "too early to sweep, and nothing is expired");
    store.sleep(70 * MS);
    assert!(store.get("absent").is_none());
    assert_eq!(store.store.len(), 0, "a due sweep drops the expired binding");
    store.put("b", "ep2");
    store.sleep(49 * MS);
    store.store.maybe_sweep(store.now);
    assert_eq!(store.store.len(), 1);
}

#[test]
fn a_store_without_room_still_takes_one() {
    let mut store = Timed::new(0, 3600 * SEC, EvictionPolicy::Lru);
    store.put("a", "ep1");
    store.put("b", "ep2");
    assert_eq!(store.store.len(), 1);
    assert_eq!(store.get("b").as_deref(), Some("ep2"));
    assert!(!store.store.is_empty());
    assert!(store.store.evict_one(store.now));
    assert!(!store.store.evict_one(store.now), "nothing is left to evict");
}

#[test]
fn registry_reuses_stores_with_equal_bounds() {
    let share = |store| Arc::new(Mutex::new(store));
    let bounds = StoreBounds {
        max_entries: 10,
        ttl: SEC,
        eviction: EvictionPolicy::Lru,
    };
    let wider = StoreBounds {
        max_entries: 11,
        ..bounds
    };
    let mut reg = SessionStoreRegistry::new();
    let first = Arc::clone(reg.get_or_create("c", bounds, 0, share));
    first.lock().unwrap().put("k", "ep".to_owned(), 1);
    reg.get_or_create("d", wider, 1, share);
    let again = Arc::clone(reg.get_or_create("c", bounds, 2, share));
    assert!(Arc::ptr_eq(&first, &again));
    assert_eq!(again.lock().unwrap().len(), 1, "bindings survive");
    let other = Arc::clone(reg.get_or_create("c", wider, 3, share));
    assert!(!Arc::ptr_eq(&first, &other));
    assert_eq!(other.lock().unwrap().len(), 0, "changed bounds get a fresh store");
    assert_eq!(other.lock().unwrap().bounds(), wider);
    assert!(Arc::ptr_eq(reg.get("c").unwrap(), &other));
    drop(again);
    assert_eq!(Arc::strong_count(&first), 1, "the registry let the replaced store go");
    assert_eq!(first.lock().unwrap().len(), 1, "a handle taken earlier still works");
}
