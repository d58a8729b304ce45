use seele::worker::eviction::evict::{
    do_evict, removal_of, staging_target, summarize_errors, EvictError, Removal,
};
use seele::worker::eviction::{
    EvictionError, EvictionManager, EvictionSnapshot, LoopAction, LoopEvent, MAX_TTL_NANOS,
};

const MILLI: i64 = 1_000_000;
const SECOND: i64 = 1_000 * MILLI;
const START: i64 = 1_700_000_000 * SECOND;

fn manager(interval_ms: u128, ttl_ms: u128, capacity: usize) -> EvictionManager {
    EvictionManager::new("test".to_string(), interval_ms * 1_000_000, ttl_ms * 1_000_000, capacity)
        .unwrap()
}

fn sorted(mut values: Vec<String>) -> Vec<String> {
    values.sort();
    values
}

fn sorted_items(snapshot: &EvictionSnapshot) -> Vec<i64> {
    let mut items = snapshot.items.clone();
    items.sort();
    items
}

fn record_at(snapshot: &EvictionSnapshot, time: i64) -> Option<Vec<String>> {
    snapshot
        .time_to_data
        .iter()
        .find(|record| record.0 == time)
        .map(|record| sorted(record.1.clone()))
}

fn latest_of(snapshot: &EvictionSnapshot, path: &str) -> Option<i64> {
    snapshot.data_to_time.iter().find(|record| record.0 == path).map(|record| record.1)
}

#[test]
fn test_eviction_critical() {
    let mut manager = manager(1000, 200, 10);

    manager.visit_once_at("1", START);
    manager.visit_once_at("1", START + 150 * MILLI);

    let evicted = manager.clean_at(START + 250 * MILLI);
    assert_eq!(evicted, Vec::<String>::new());

    assert_eq!(manager.item_count(), 1);
    assert_eq!(manager.record_count(), 1);
    assert_eq!(manager.path_count(), 1);
}

#[test]
fn test_eviction_capacity() {
    let mut manager = manager(300, 100_000, 2);

    manager.visit_once_at("1", START);
    manager.visit_once_at("2", START + 1);
    manager.visit_once_at("3", START + 2);

    let evicted = manager.clean_at(START + 3);
    assert_eq!(evicted, vec!["1".to_string()]);
    let evicted = manager.clean_at(START + 300 * MILLI);
    assert_eq!(evicted, Vec::<String>::new());

    assert_eq!(manager.item_count(), 2);
    assert_eq!(manager.record_count(), 2);

    let snapshot = manager.save_states();
    let items = sorted_items(&snapshot);
    assert_eq!(record_at(&snapshot, items[0]), Some(vec!["2".to_string()]));
    assert_eq!(record_at(&snapshot, items[1]), Some(vec!["3".to_string()]));
}

#[test]
fn test_eviction_ttl() {
    let mut manager = manager(100, 200, 10);

    manager.visit_once_at("1", START);
    manager.visit_once_at("2", START + 1);
    manager.visit_once_at("3", START + 2);

    let mut evicted = Vec::new();
    for tick in 0..5 {
        evicted.extend(manager.clean_at(START + 3 + tick * 100 * MILLI));
    }

    assert_eq!(manager.item_count(), 0);
    assert_eq!(manager.record_count(), 0);
    assert_eq!(sorted(evicted), vec!["1".to_string(), "2".to_string(), "3".to_string()]);
}

#[test]
fn test_visit_enter_leave() {
    let mut manager = manager(300, 100_000, 2);

    manager.visit_enter_at("1", START);
    manager.visit_enter_at("2", START + 1);
    manager.visit_once_at("3", START + 2);
    manager.visit_leave("2");

    assert_eq!(manager.clean_at(START + 3), Vec::<String>::new());
    assert_eq!(manager.clean_at(START + 300 * MILLI), Vec::<String>::new());

    assert_eq!(manager.item_count(), 3);
    assert_eq!(manager.record_count(), 3);

    let snapshot = manager.save_states();
    let items = sorted_items(&snapshot);
    assert_eq!(record_at(&snapshot, items[0]), Some(vec!["1".to_string()]));
    assert_eq!(record_at(&snapshot, items[1]), Some(vec!["2".to_string()]));
    assert_eq!(record_at(&snapshot, items[2]), Some(vec!["3".to_string()]));
}

#[test]
fn new_manager_keeps_its_settings() {
    let manager = EvictionManager::new("images".to_string(), 7, 11, 13).unwrap();
    assert_eq!(manager.name(), "images");
    assert_eq!(manager.interval_nanos(), 7);
    assert_eq!(manager.ttl_nanos(), 11);
    assert_eq!(manager.capacity(), 13);
    assert_eq!(manager.item_count(), 0);
    assert_eq!(manager.record_count(), 0);
    assert_eq!(manager.path_count(), 0);
}

#[test]
fn ttl_is_bounded_by_the_longest_time_delta() {
    assert!(EvictionManager::new("a".to_string(), 1, MAX_TTL_NANOS, 1).is_ok());
    assert_eq!(
        EvictionManager::new("a".to_string(), 1, MAX_TTL_NANOS + 1, 1).err(),
        Some(EvictionError::TtlOutOfRange)
    );
    assert_eq!(
        EvictionManager::new("a".to_string(), 1, u128::MAX, 1).err(),
        Some(EvictionError::TtlOutOfRange)
    );
    assert!(EvictionManager::new("a".to_string(), 1, 0, 1).is_ok());
}

#[test]
fn visit_once_reads_the_clock() {
    let mut manager = manager(1000, 200, 10);
    let at = manager.visit_once("a").unwrap();
    assert!(at > START);
    let snapshot = manager.save_states();
    assert_eq!(snapshot.items, vec![at]);
    assert_eq!(latest_of(&snapshot, "a"), Some(at));
    assert_eq!(record_at(&snapshot, at), Some(vec!["a".to_string()]));
    assert!(!manager.is_preserved("a"));
}

#[test]
fn visit_enter_pins_and_clean_reads_the_clock() {
    let mut manager = manager(1000, 0, 0);
    let at = manager.visit_enter("a").unwrap();
    manager.visit_once_at("b", at - 1);
    assert!(manager.is_preserved("a"));
    let (now, evicted) = manager.clean().unwrap();
    assert!(now >= at);
    assert_eq!(evicted, vec!["b".to_string()]);
    assert_eq!(manager.item_count(), 1);
    manager.visit_leave("a");
    assert!(!manager.is_preserved("a"));
    let (_, evicted) = manager.clean().unwrap();
    assert_eq!(evicted, vec!["a".to_string()]);
    assert_eq!(manager.item_count(), 0);
}

#[test]
fn sweep_past_ttl_leaves_nothing() {
    let mut manager = manager(1000, 200, 10);
    manager.visit_once_at("a", START);
    manager.visit_once_at("b", START);
    manager.visit_once_at("a", START + 5);
    manager.visit_once_at("c", START + 9);
    let evicted = manager.clean_at(START + 9 + 200 * MILLI);
    assert_eq!(sorted(evicted), vec!["a".to_string(), "b".to_string(), "c".to_string()]);
    assert_eq!(manager.item_count(), 0);
    assert_eq!(manager.record_count(), 0);
    assert_eq!(manager.path_count(), 0);
}

#[test]
fn visit_exactly_ttl_old_is_stale_and_younger_is_not() {
    let mut manager = manager(1000, 200, 10);
    manager.visit_once_at("a", START);
    assert_eq!(manager.clean_at(START + 200 * MILLI - 1), Vec::<String>::new());
    assert_eq!(manager.item_count(), 1);
    assert_eq!(manager.clean_at(START + 200 * MILLI), vec!["a".to_string()]);
    assert_eq!(manager.item_count(), 0);
}

#[test]
fn sweep_keeps_at_most_capacity_unpinned_visits() {
    let mut manager = manager(1000, 100_000, 3);
    for i in 0..10 {
        manager.visit_once_at(&format!("p{}", i), START + i);
    }
    let evicted = manager.clean_at(START + 20);
    assert_eq!(evicted.len(), 7);
    assert_eq!(manager.item_count(), 3);
    let snapshot = manager.save_states();
    assert_eq!(sorted_items(&snapshot), vec![START + 7, START + 8, START + 9]);
}

#[test]
fn pinned_visits_may_exceed_capacity() {
    let mut manager = manager(1000, 100_000, 1);
    manager.visit_enter_at("a", START);
    manager.visit_enter_at("b", START + 1);
    manager.visit_once_at("c", START + 2);
    manager.visit_once_at("d", START + 3);
    let evicted = manager.clean_at(START + 4);
    assert_eq!(evicted, vec!["c".to_string()]);
    assert_eq!(manager.item_count(), 3);
    let snapshot = manager.save_states();
    assert_eq!(sorted_items(&snapshot), vec![START, START + 1, START + 3]);
}

#[test]
fn pinned_path_is_never_evicted() {
    let mut manager = manager(1000, 1, 0);
    manager.visit_enter_at("pinned", START);
    manager.visit_once_at("other", START);
    for tick in 1..5 {
        let evicted = manager.clean_at(START + tick * SECOND);
        assert!(!evicted.contains(&"pinned".to_string()));
    }
    let snapshot = manager.save_states();
    assert_eq!(record_at(&snapshot, START), Some(vec!["pinned".to_string()]));
    assert_eq!(latest_of(&snapshot, "pinned"), Some(START));
    assert_eq!(latest_of(&snapshot, "other"), None);
    assert!(manager.is_preserved("pinned"));
}

#[test]
fn stale_record_of_a_revisited_path_is_dropped_without_eviction() {
    let mut manager = manager(1000, 200, 10);
    manager.visit_once_at("a", START);
    manager.visit_once_at("a", START + 100 * MILLI);
    manager.visit_once_at("a", START + 150 * MILLI);
    assert_eq!(manager.item_count(), 3);
    let evicted = manager.clean_at(START + 320 * MILLI);
    assert_eq!(evicted, Vec::<String>::new());
    assert_eq!(manager.item_count(), 1);
    assert_eq!(manager.record_count(), 1);
    assert_eq!(manager.path_count(), 1);
    let snapshot = manager.save_states();
    assert_eq!(latest_of(&snapshot, "a"), Some(START + 150 * MILLI));
    assert_eq!(record_at(&snapshot, START + 150 * MILLI), Some(vec!["a".to_string()]));
}

#[test]
fn paths_visited_at_one_instant_share_a_record() {
    let mut manager = manager(1000, 200, 10);
    manager.visit_once_at("a", START);
    manager.visit_once_at("b", START);
    assert_eq!(manager.item_count(), 2);
    assert_eq!(manager.record_count(), 1);
    assert_eq!(manager.path_count(), 2);
    let evicted = manager.clean_at(START + SECOND);
    assert_eq!(sorted(evicted), vec!["a".to_string(), "b".to_string()]);
    assert_eq!(manager.item_count(), 0);
}

#[test]
fn save_then_load_gives_the_persisted_fields_back() {
    let mut manager = manager(1000, 200, 10);
    manager.visit_enter_at("a", START);
    manager.visit_once_at("b", START + 1);
    manager.visit_once_at("b", START + 2);
    let saved = manager.save_states();

    let mut other = EvictionManager::new("other".to_string(), 1, 200_000_000, 10).unwrap();
    other.visit_enter_at("z", START - 5);
    let count = other.load_states(&saved);
    assert_eq!(count, 3);
    assert!(other.is_preserved("z"));
    assert!(!other.is_preserved("a"));

    let loaded = other.save_states();
    assert_eq!(sorted_items(&loaded), sorted_items(&saved));
    assert_eq!(sorted_items(&loaded), vec![START, START + 1, START + 2]);
    assert_eq!(record_at(&loaded, START), Some(vec!["a".to_string()]));
    assert_eq!(record_at(&loaded, START + 1), Some(vec!["b".to_string()]));
    assert_eq!(record_at(&loaded, START + 2), Some(vec!["b".to_string()]));
    assert_eq!(latest_of(&loaded, "a"), Some(START));
    assert_eq!(latest_of(&loaded, "b"), Some(START + 2));
    assert_eq!(latest_of(&loaded, "z"), None);
    assert_eq!(loaded.time_to_data.len(), 3);
    assert_eq!(loaded.data_to_time.len(), 2);
}

#[test]
fn load_lets_a_later_entry_replace_an_earlier_one() {
    let mut manager = manager(1000, 200, 10);
    let snapshot = EvictionSnapshot {
        items: vec![5, 3, 5],
        time_to_data: vec![
            (5, vec!["a".to_string()]),
            (3, vec!["b".to_string(), "b".to_string()]),
            (5, vec!["c".to_string()]),
        ],
        data_to_time: vec![("a".to_string(), 1), ("a".to_string(), 5)],
    };
    assert_eq!(manager.load_states(&snapshot), 3);
    assert_eq!(manager.record_count(), 2);
    assert_eq!(manager.path_count(), 1);
    let saved = manager.save_states();
    assert_eq!(sorted_items(&saved), vec![3, 5, 5]);
    assert_eq!(record_at(&saved, 5), Some(vec!["c".to_string()]));
    assert_eq!(record_at(&saved, 3), Some(vec!["b".to_string()]));
    assert_eq!(latest_of(&saved, "a"), Some(5));
}

#[test]
fn extreme_instants_do_not_overflow() {
    let mut manager = manager(1000, 200, 10);
    manager.visit_once_at("a", i64::MIN);
    manager.visit_once_at("b", i64::MAX);
    assert_eq!(manager.clean_at(i64::MAX), vec!["a".to_string()]);
    assert_eq!(manager.clean_at(i64::MIN), Vec::<String>::new());
    assert_eq!(manager.item_count(), 1);
}

#[test]
fn staging_target_puts_the_random_text_first() {
    assert_eq!(
        staging_target("/data/evicted", "Ab3dE6gH", Some("submission-1")),
        Ok("/data/evicted/Ab3dE6gH_submission-1".to_string())
    );
    assert_eq!(staging_target("/data/evicted", "Ab3dE6gH", None), Err(EvictError::MissingFileName));
}

#[test]
fn do_evict_moves_under_a_random_name() {
    let planned = do_evict("/data", "/data/evicted", "submissions/abc").unwrap();
    assert_eq!(planned.from, "/data/submissions/abc");
    let name = planned.to.strip_prefix("/data/evicted/").unwrap();
    assert_eq!(name.len(), 8 + 1 + 3);
    assert!(name[..8].chars().all(|c| c.is_ascii_alphanumeric()));
    assert_eq!(&name[8..], "_abc");

    let again = do_evict("/data", "/data/evicted", "submissions/abc").unwrap();
    assert_ne!(again.to, planned.to);
}

#[test]
fn do_evict_takes_the_last_component() {
    let planned = do_evict("/data", "/data/evicted", "/elsewhere/images/x/").unwrap();
    assert_eq!(planned.from, "/elsewhere/images/x/");
    assert!(planned.to.ends_with("_x"));
    assert_eq!(
        do_evict("/", "/data/evicted", "..").err(),
        Some(EvictError::MissingFileName)
    );
    assert_eq!(do_evict("/", "/data/evicted", "").err(), Some(EvictError::MissingFileName));
    assert_eq!(EvictError::MissingFileName.message(), "Invalid file, expected file name");
}

#[test]
fn removal_goes_by_the_kind() {
    assert_eq!(removal_of(true), Removal::File);
    assert_eq!(removal_of(false), Removal::Tree);
}

#[test]
fn errors_of_a_sweep_are_put_together() {
    assert_eq!(summarize_errors(&vec![]), None);
    assert_eq!(
        summarize_errors(&vec!["".to_string()]),
        Some("Error doing cleaning for following paths:\n".to_string())
    );
    assert_eq!(
        summarize_errors(&vec!["".to_string(), "".to_string()]),
        Some("Error doing cleaning for following paths:\n\n".to_string())
    );
    assert_eq!(
        summarize_errors(&vec!["a: gone".to_string()]),
        Some("Error doing cleaning for following paths:\na: gone".to_string())
    );
    assert_eq!(
        summarize_errors(&vec!["a: gone".to_string(), "b: busy".to_string()]),
        Some("Error doing cleaning for following paths:\na: gone\nb: busy".to_string())
    );
}

#[test]
fn loop_pauses_then_sweeps_and_goes_on_after_a_failure() {
    let manager = EvictionManager::new("test".to_string(), 300, 100, 2).unwrap();
    assert_eq!(manager.run_loop(LoopEvent::Started), LoopAction::Sleep { nanos: 300 });
    assert_eq!(manager.run_loop(LoopEvent::Slept), LoopAction::Clean);
    assert_eq!(
        manager.run_loop(LoopEvent::Cleaned { failed: false }),
        LoopAction::Sleep { nanos: 300 }
    );
    assert_eq!(
        manager.run_loop(LoopEvent::Cleaned { failed: true }),
        LoopAction::Sleep { nanos: 300 }
    );
}

#[test]
fn path_given_up_at_two_records_comes_back_once() {
    let mut manager = manager(1000, 200, 10);
    manager.visit_once_at("a", START + 10);
    manager.visit_once_at("a", START + 5);
    manager.visit_once_at("b", START + 7);
    let evicted = manager.clean_at(START + SECOND);
    assert_eq!(sorted(evicted), vec!["a".to_string(), "b".to_string()]);
    assert_eq!(manager.item_count(), 0);
    assert_eq!(manager.record_count(), 0);
    assert_eq!(manager.path_count(), 0);
}
