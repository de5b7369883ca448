use billkeeper::models::{Lookup, ModelManager, DEFAULT_TIMEOUT_MILLIS, LM_ID, VLM_ID};
use std::sync::Arc;

fn manager(timeout: u64) -> ModelManager<Arc<String>> {
    ModelManager::new(timeout, vec![VLM_ID.to_string(), LM_ID.to_string()])
}

#[test]
fn a_model_is_built_once_and_then_shared() {
    let mut cache = manager(1000);
    assert_eq!(cache.timeout(), 1000);
    assert_eq!(cache.cached_len(), 0);
    assert!(cache.model("vlm").is_none());
    assert_eq!(cache.get_model("vlm", 0), Lookup::Build);
    // a second caller is not told to build while the build is under way
    assert_eq!(cache.get_model("vlm", 1), Lookup::InFlight);
    assert_eq!(cache.get_model("vlm", 2), Lookup::InFlight);
    assert!(cache.model("vlm").is_none());

    let built = Arc::new("the vlm".to_string());
    cache.store("vlm", built.clone(), 50);
    assert_eq!(cache.cached_len(), 1);
    assert_eq!(cache.get_model("vlm", 60), Lookup::Hit);
    let first = cache.model("vlm").unwrap().clone();
    assert_eq!(cache.get_model("vlm", 70), Lookup::Hit);
    let second = cache.model("vlm").unwrap().clone();
    assert!(Arc::ptr_eq(&first, &second));
    assert!(Arc::ptr_eq(&first, &built));
}

#[test]
fn different_ids_have_different_models() {
    let mut cache = manager(1000);
    assert_eq!(cache.get_model("vlm", 0), Lookup::Build);
    assert_eq!(cache.get_model("lm", 0), Lookup::Build);
    let vlm = Arc::new("vlm".to_string());
    let lm = Arc::new("lm".to_string());
    cache.store("lm", lm.clone(), 5);
    cache.store("vlm", vlm.clone(), 6);
    assert_eq!(cache.cached_len(), 2);
    assert!(Arc::ptr_eq(cache.model("vlm").unwrap(), &vlm));
    assert!(Arc::ptr_eq(cache.model("lm").unwrap(), &lm));
    assert!(!Arc::ptr_eq(cache.model("vlm").unwrap(), cache.model("lm").unwrap()));
    // dropping one leaves the other
    assert!(cache.evict_idle("lm", 5000).is_some());
    assert!(cache.model("lm").is_none());
    assert!(Arc::ptr_eq(cache.model("vlm").unwrap(), &vlm));
}

#[test]
fn an_unknown_id_is_unknown() {
    let mut cache = manager(1000);
    assert_eq!(cache.get_model("embedding", 0), Lookup::Unknown);
    assert_eq!(cache.get_model("", 0), Lookup::Unknown);
    assert!(cache.model("embedding").is_none());
    assert_eq!(cache.cached_len(), 0);
    let mut empty: ModelManager<u8> = ModelManager::new(1, vec![]);
    assert_eq!(empty.get_model("vlm", 0), Lookup::Unknown);
}

#[test]
fn a_failed_build_leaves_no_entry() {
    let mut cache = manager(1000);
    assert_eq!(cache.get_model("lm", 0), Lookup::Build);
    cache.abandon("lm");
    assert!(cache.model("lm").is_none());
    assert_eq!(cache.cached_len(), 0);
    // the next request starts a new build
    assert_eq!(cache.get_model("lm", 10), Lookup::Build);
    // abandoning what is not being built changes nothing
    cache.abandon("vlm");
    assert_eq!(cache.get_model("lm", 11), Lookup::InFlight);
    assert_eq!(cache.get_model("vlm", 11), Lookup::Build);
}

#[test]
fn a_model_is_dropped_after_the_whole_timeout_without_use() {
    let mut cache = manager(100);
    assert_eq!(cache.get_model("vlm", 0), Lookup::Build);
    cache.store("vlm", Arc::new("m".to_string()), 10);
    assert!(cache.evict_idle("vlm", 109).is_none());
    assert!(cache.model("vlm").is_some());
    let dropped = cache.evict_idle("vlm", 110).unwrap();
    assert_eq!(*dropped, "m");
    assert!(cache.model("vlm").is_none());
    assert_eq!(cache.cached_len(), 0);
    assert!(cache.evict_idle("vlm", 500).is_none());
    assert_eq!(cache.get_model("vlm", 501), Lookup::Build);
}

#[test]
fn a_use_wins_over_an_older_timer() {
    let mut cache = manager(100);
    cache.get_model("vlm", 0);
    cache.store("vlm", Arc::new("m".to_string()), 0);
    // used again at 90; the timer of the store fires at 100
    assert_eq!(cache.get_model("vlm", 90), Lookup::Hit);
    assert!(cache.evict_idle("vlm", 100).is_none());
    assert_eq!(cache.get_model("vlm", 150), Lookup::Hit);
    assert!(cache.evict_idle("vlm", 190).is_none());
    assert!(cache.evict_idle("vlm", 249).is_none());
    assert!(cache.evict_idle("vlm", 250).is_some());
}

#[test]
fn a_timer_from_before_the_last_use_drops_nothing() {
    let mut cache = manager(100);
    cache.store("vlm", Arc::new("m".to_string()), 500);
    // a clock reading from before the last use
    assert!(cache.evict_idle("vlm", 0).is_none());
    assert!(cache.evict_idle("vlm", 499).is_none());
    assert!(cache.model("vlm").is_some());
    // an id without a model
    assert!(cache.evict_idle("lm", u64::MAX).is_none());
    // no overflow at the far end of the clock
    cache.store("lm", Arc::new("l".to_string()), u64::MAX - 1);
    assert!(cache.evict_idle("lm", u64::MAX).is_none());
}

#[test]
fn a_timeout_of_zero_drops_at_once() {
    let mut cache: ModelManager<u8> = ModelManager::new(0, vec!["vlm".to_string()]);
    cache.store("vlm", 1, 7);
    assert_eq!(cache.evict_idle("vlm", 7), Some(1));
}

#[test]
fn storing_again_replaces_the_model() {
    let mut cache: ModelManager<u8> = ModelManager::new(10, vec!["vlm".to_string()]);
    cache.store("vlm", 1, 0);
    cache.store("vlm", 2, 5);
    assert_eq!(cache.cached_len(), 1);
    assert_eq!(cache.model("vlm"), Some(&2));
    assert_eq!(cache.evict_idle("vlm", 14), None);
    assert_eq!(cache.evict_idle("vlm", 15), Some(2));
}

#[test]
fn the_defaults_are_five_minutes_and_two_models() {
    assert_eq!(DEFAULT_TIMEOUT_MILLIS, 5 * 60 * 1000);
    assert_eq!(VLM_ID, "vlm");
    assert_eq!(LM_ID, "lm");
}
