use ip_registry::clock::{current_timestamp, whole_seconds};
use ip_registry::heap::{ExpireHeap, ExpireNode};
use ip_registry::registry::{
    load_rust_state, load_singbox_config, rebuild_expire_heap, should_rebuild_heap, Registry,
    RegistryCmd, RustRegistryState, SingBoxConfig, SingBoxRule,
};
use ip_registry::table::ExpiryTable;
use std::cmp::Ordering;

fn state(entries: &[(&str, u64)]) -> RustRegistryState {
    RustRegistryState {
        expires: ExpiryTable::from_entries(
            entries.iter().map(|(cidr, at)| (cidr.to_string(), *at)).collect(),
        ),
    }
}

fn config(version: u32, rules: &[&[&str]]) -> SingBoxConfig {
    SingBoxConfig {
        version,
        rules: rules
            .iter()
            .map(|rule| SingBoxRule {
                source_ip_cidr: rule.iter().map(|cidr| cidr.to_string()).collect(),
            })
            .collect(),
    }
}

fn empty() -> Registry {
    Registry::new(load_singbox_config(None), load_rust_state(None))
}

fn whitelist(registry: &Registry) -> Vec<String> {
    registry.sb_config().rules[0].source_ip_cidr.clone()
}

fn expires(registry: &Registry) -> Vec<(String, u64)> {
    let mut entries: Vec<(String, u64)> = registry
        .rust_state()
        .expires
        .entries()
        .iter()
        .map(|entry| (entry.cidr.clone(), entry.expire_at))
        .collect();
    entries.sort();
    entries
}

#[test]
fn earlier_node_is_the_greater_one() {
    let early = ExpireNode { cidr: "a".to_string(), expire_at: 1 };
    let late = ExpireNode { cidr: "a".to_string(), expire_at: 2 };
    let same = ExpireNode { cidr: "b".to_string(), expire_at: 1 };
    assert_eq!(early.cmp(&late), Ordering::Greater);
    assert_eq!(late.cmp(&early), Ordering::Less);
    assert_eq!(early.cmp(&same), Ordering::Equal);
    assert_eq!(early.partial_cmp(&late), Some(Ordering::Greater));
    assert!(early > late);
    assert!(early != same);
}

#[test]
fn heap_gives_the_earliest_first() {
    let mut heap = ExpireHeap::new();
    assert!(heap.peek().is_none());
    assert!(heap.pop().is_none());
    let mut seed: u64 = 7;
    let mut times: Vec<u64> = Vec::new();
    for i in 0..500u64 {
        seed = (seed * 1103515245 + 12345) % 2147483648;
        times.push(seed % 100);
        heap.push(ExpireNode { cidr: i.to_string(), expire_at: seed % 100 });
    }
    assert_eq!(heap.len(), 500);
    times.sort();
    for time in times {
        assert_eq!(heap.peek().unwrap().expire_at, time);
        assert_eq!(heap.pop().unwrap().expire_at, time);
    }
    assert_eq!(heap.len(), 0);
}

#[test]
fn cleared_heap_is_empty() {
    let mut heap = ExpireHeap::new();
    heap.push(ExpireNode { cidr: "a".to_string(), expire_at: 1 });
    heap.clear();
    assert_eq!(heap.len(), 0);
    assert!(heap.pop().is_none());
}

#[test]
fn table_finds_what_was_put_in() {
    let mut table = ExpiryTable::new();
    assert_eq!(table.get("a"), None);
    table.insert("a".to_string(), 1);
    table.insert("b".to_string(), 2);
    table.insert("c".to_string(), 3);
    table.insert("a".to_string(), 9);
    assert_eq!(table.len(), 3);
    assert_eq!(table.get("a"), Some(9));
    table.remove("a");
    table.remove("missing");
    assert_eq!(table.len(), 2);
    assert_eq!(table.get("a"), None);
    assert_eq!(table.get("b"), Some(2));
    assert_eq!(table.get("c"), Some(3));
    table.clear();
    assert_eq!(table.len(), 0);
    assert!(table.entries().is_empty());
}

#[test]
fn later_entry_of_a_list_counts() {
    let table = ExpiryTable::from_entries(vec![
        ("a".to_string(), 1),
        ("b".to_string(), 2),
        ("a".to_string(), 3),
    ]);
    assert_eq!(table.len(), 2);
    assert_eq!(table.get("a"), Some(3));
}

#[test]
fn rebuild_is_due_past_the_bound() {
    assert!(!should_rebuild_heap(1024, 0));
    assert!(should_rebuild_heap(1025, 0));
    assert!(!should_rebuild_heap(1028, 1));
    assert!(should_rebuild_heap(1029, 1));
    assert!(!should_rebuild_heap(usize::MAX, usize::MAX));
    assert!(!should_rebuild_heap(usize::MAX, usize::MAX / 4));
    assert!(!should_rebuild_heap(usize::MAX, usize::MAX / 4 + 1));
}

#[test]
fn rebuilt_heap_holds_each_registration_once() {
    let mut heap = rebuild_expire_heap(&state(&[("a", 5), ("b", 3), ("c", 9)]));
    assert_eq!(heap.len(), 3);
    assert_eq!(heap.pop().unwrap().cidr, "b");
    assert_eq!(heap.pop().unwrap().cidr, "a");
    assert_eq!(heap.pop().unwrap().cidr, "c");
}

#[test]
fn unreadable_files_give_an_empty_start() {
    let config = load_singbox_config(None);
    assert_eq!(config.version, 1);
    assert_eq!(config.rules.len(), 1);
    assert!(config.rules[0].source_ip_cidr.is_empty());
    assert_eq!(load_rust_state(None).expires.len(), 0);
}

#[test]
fn readable_files_are_taken_as_they_are() {
    let config = load_singbox_config(Some(config(3, &[&["a"], &["b"]])));
    assert_eq!(config.version, 3);
    assert_eq!(config.rules.len(), 2);
    assert_eq!(load_rust_state(Some(state(&[("a", 4)]))).expires.get("a"), Some(4));
}

#[test]
fn registration_lasts_until_it_lapses() {
    let mut registry = empty();
    let persist =
        registry.handle_command(RegistryCmd::Register("10.0.0.1/32".to_string(), 60), 1000);
    assert!(!persist);
    assert!(registry.is_dirty());
    assert_eq!(whitelist(&registry), vec!["10.0.0.1/32"]);
    assert_eq!(expires(&registry), vec![("10.0.0.1/32".to_string(), 1060)]);

    let outcome = registry.tick(1059);
    assert!(outcome.expired.is_empty());
    assert!(outcome.persist);
    registry.persisted(true);
    assert_eq!(whitelist(&registry), vec!["10.0.0.1/32"]);

    let outcome = registry.tick(1060);
    assert_eq!(outcome.expired, vec!["10.0.0.1/32"]);
    assert!(outcome.persist);
    assert!(whitelist(&registry).is_empty());
    assert!(expires(&registry).is_empty());
    registry.persisted(true);
    assert!(!registry.tick(2000).persist);
}

#[test]
fn registering_again_moves_the_end() {
    let mut registry = empty();
    registry.register("a".to_string(), 10, 0);
    registry.register("a".to_string(), 50, 5);
    assert_eq!(whitelist(&registry), vec!["a"]);
    assert!(registry.tick(10).expired.is_empty());
    assert_eq!(whitelist(&registry), vec!["a"]);
    assert_eq!(registry.tick(55).expired, vec!["a"]);
}

#[test]
fn registering_again_can_move_the_end_forward_in_time() {
    let mut registry = empty();
    registry.register("a".to_string(), 100, 0);
    registry.register("a".to_string(), 10, 0);
    assert_eq!(registry.tick(10).expired, vec!["a"]);
    let outcome = registry.tick(100);
    assert!(outcome.expired.is_empty());
}

#[test]
fn whitelist_keeps_the_order_of_registration() {
    let mut registry = empty();
    for cidr in ["c", "a", "b", "a"] {
        registry.register(cidr.to_string(), 10, 0);
    }
    assert_eq!(whitelist(&registry), vec!["c", "a", "b"]);
}

#[test]
fn several_registrations_lapse_in_one_tick() {
    let mut registry = empty();
    for i in 0..50u64 {
        registry.register(format!("10.0.0.{}/32", i), i, 0);
    }
    let mut expired = registry.tick(24).expired;
    expired.sort();
    assert_eq!(expired.len(), 25);
    assert_eq!(registry.whitelist_len(), 25);
    assert!(whitelist(&registry).iter().all(|cidr| !expired.contains(cidr)));
}

#[test]
fn two_ticks_do_what_the_later_does_alone() {
    let build = || {
        let mut registry = empty();
        for i in 0..20u64 {
            registry.register(i.to_string(), i * 7 % 13, 0);
        }
        registry
    };
    let mut twice = build();
    twice.tick(4);
    twice.tick(9);
    let mut once = build();
    once.tick(9);
    assert_eq!(whitelist(&twice), whitelist(&once));
    assert_eq!(expires(&twice), expires(&once));
}

#[test]
fn clearing_empties_the_first_rule_only() {
    let mut registry = Registry::new(
        config(2, &[&["a", "b"], &["keep"]]),
        state(&[("a", 5), ("x", 9)]),
    );
    let persist = registry.handle_command(RegistryCmd::ClearAll, 0);
    assert!(persist);
    assert!(whitelist(&registry).is_empty());
    assert!(expires(&registry).is_empty());
    assert_eq!(registry.sb_config().version, 2);
    assert_eq!(registry.sb_config().rules[1].source_ip_cidr, vec!["keep"]);
    assert!(registry.tick(100).expired.is_empty());
}

#[test]
fn clearing_without_rules_leaves_none() {
    let mut registry = Registry::new(config(1, &[]), state(&[("a", 5)]));
    registry.clear_all();
    assert!(registry.sb_config().rules.is_empty());
    assert_eq!(registry.whitelist_len(), 0);
}

#[test]
fn first_registration_makes_the_first_rule() {
    let mut registry = Registry::new(config(1, &[]), state(&[]));
    registry.register("a".to_string(), 1, 1);
    assert_eq!(registry.sb_config().rules.len(), 1);
    assert_eq!(whitelist(&registry), vec!["a"]);
}

#[test]
fn other_rules_are_never_touched() {
    let mut registry = Registry::new(config(7, &[&["a"], &["a", "b"]]), state(&[("a", 5)]));
    registry.register("b".to_string(), 1, 1);
    registry.tick(10);
    assert_eq!(registry.sb_config().version, 7);
    assert!(whitelist(&registry).is_empty());
    assert_eq!(registry.sb_config().rules[1].source_ip_cidr, vec!["a", "b"]);
}

#[test]
fn restart_loses_nothing() {
    let mut registry = Registry::new(
        config(1, &[&["a", "b"]]),
        state(&[("a", 10), ("b", 20)]),
    );
    assert!(!registry.is_dirty());
    assert_eq!(registry.tick(10).expired, vec!["a"]);
    assert_eq!(whitelist(&registry), vec!["b"]);
    assert_eq!(expires(&registry), vec![("b".to_string(), 20)]);
}

#[test]
fn listed_ranges_without_a_time_never_lapse() {
    let mut registry = Registry::new(config(1, &[&["forever", "forever"]]), state(&[]));
    assert!(registry.tick(u64::MAX).expired.is_empty());
    assert_eq!(whitelist(&registry), vec!["forever", "forever"]);
}

#[test]
fn every_copy_of_a_lapsed_range_is_dropped() {
    let mut registry = Registry::new(config(1, &[&["a", "x", "a", "a"]]), state(&[("a", 1)]));
    assert_eq!(registry.tick(1).expired, vec!["a"]);
    assert_eq!(whitelist(&registry), vec!["x"]);
}

#[test]
fn failed_write_is_tried_again() {
    let mut registry = empty();
    registry.register("a".to_string(), 100, 0);
    assert!(registry.tick(1).persist);
    registry.persisted(false);
    assert!(registry.tick(3).persist);
    registry.persisted(true);
    assert!(!registry.tick(5).persist);
}

#[test]
fn many_registrations_of_one_range_keep_the_queue_correct() {
    let mut registry = empty();
    for i in 0..3000u64 {
        registry.register("a".to_string(), 10 + i, 0);
    }
    assert!(registry.tick(3008).expired.is_empty());
    assert_eq!(registry.tick(3009).expired, vec!["a"]);
    assert!(expires(&registry).is_empty());
}

#[test]
fn latest_possible_expiry_is_accepted() {
    let mut registry = empty();
    registry.register("a".to_string(), 1, u64::MAX - 1);
    assert_eq!(expires(&registry), vec![("a".to_string(), u64::MAX)]);
    assert!(registry.tick(u64::MAX - 1).expired.is_empty());
    assert_eq!(registry.tick(u64::MAX).expired, vec!["a"]);
}

#[test]
fn time_is_counted_in_whole_seconds() {
    assert_eq!(whole_seconds(Some((12, 999_999_999))), Some(12));
    assert_eq!(whole_seconds(Some((0, 0))), Some(0));
    assert_eq!(whole_seconds(None), None);
}

#[test]
fn clock_agrees_with_the_system() {
    let before = std::time::UNIX_EPOCH.elapsed().unwrap().as_secs();
    let now = current_timestamp().unwrap();
    let after = std::time::UNIX_EPOCH.elapsed().unwrap().as_secs();
    assert!(before <= now && now <= after);
}

#[test]
fn whitelist_holds_what_is_registered() {
    let mut registry = empty();
    for i in 0..40u64 {
        registry.register((i % 17).to_string(), i * 11 % 23, i);
        registry.tick(i);
        let mut listed = whitelist(&registry);
        listed.sort();
        let live: Vec<String> = expires(&registry).into_iter().map(|entry| entry.0).collect();
        assert_eq!(listed, live);
    }
}

#[test]
fn registrations_do_not_interfere() {
    let mut registry = empty();
    registry.register("a".to_string(), 10, 0);
    registry.register("b".to_string(), 99, 0);
    assert_eq!(
        expires(&registry),
        vec![("a".to_string(), 10), ("b".to_string(), 99)]
    );
    assert_eq!(registry.tick(10).expired, vec!["a"]);
    assert_eq!(whitelist(&registry), vec!["b"]);
}

#[test]
fn lapsed_ranges_are_reported_earliest_first() {
    let mut registry = empty();
    for (cidr, at) in [("c", 30), ("a", 10), ("d", 40), ("b", 20), ("later", 99)] {
        registry.register(cidr.to_string(), at, 0);
    }
    assert_eq!(registry.tick(50).expired, vec!["a", "b", "c", "d"]);
}

#[test]
fn earliest_queued_expiry_decides_the_order() {
    let mut registry = empty();
    registry.register("moved".to_string(), 10, 0);
    registry.register("other".to_string(), 20, 0);
    registry.register("moved".to_string(), 30, 0);
    assert_eq!(registry.tick(40).expired, vec!["moved", "other"]);
}

#[test]
fn written_entries_are_read_back_in_any_order() {
    let mut table = ExpiryTable::new();
    for i in 0..30u64 {
        table.insert((i * 7 % 30).to_string(), i * i);
    }
    table.remove("3");
    table.remove("29");
    let mut written: Vec<(String, u64)> = table
        .entries()
        .iter()
        .map(|entry| (entry.cidr.clone(), entry.expire_at))
        .collect();
    for _ in 0..3 {
        written.rotate_left(11);
        written.reverse();
        let read = ExpiryTable::from_entries(written.clone());
        let read = load_rust_state(Some(RustRegistryState { expires: read }));
        assert_eq!(read.expires.len(), 28);
        for i in 0..30u64 {
            let cidr = i.to_string();
            assert_eq!(read.expires.get(&cidr), table.get(&cidr));
        }
    }
}
