use jasmine::leader_util::find_leader;
use jasmine::leader_util::leader_for_digest;
use jasmine::leader_util::parse_broker_id;
use jasmine::leader_util::resolve;
use jasmine::leader_util::select_slot;
use std::collections::hash_map::DefaultHasher;
use std::hash::Hash;
use std::hash::Hasher;

fn strings(items: &[&str]) -> Vec<String> {
    items.iter().map(|s| s.to_string()).collect()
}

fn digest_of(topic: &str) -> u64 {
    let mut hasher = DefaultHasher::new();
    topic.hash(&mut hasher);
    hasher.finish()
}

#[test]
fn slot_is_digest_modulo_live_count() {
    assert_eq!(select_slot(10, 3), 1);
    assert_eq!(select_slot(0, 5), 0);
    assert_eq!(select_slot(14, 7), 0);
    assert_eq!(select_slot(15, 7), 1);
    assert_eq!(select_slot(u64::MAX, 1), 0);
    assert_eq!(select_slot(u64::MAX, 2), ((u64::MAX as usize) % 2));
}

#[test]
fn broker_id_reads_decimal_entries() {
    assert_eq!(parse_broker_id("2"), 2);
    assert_eq!(parse_broker_id("0"), 0);
    assert_eq!(parse_broker_id("17"), 17);
    assert_eq!(parse_broker_id("007"), 7);
    assert_eq!(parse_broker_id("+7"), 7);
}

#[test]
fn broker_id_of_a_non_number_is_zero() {
    assert_eq!(parse_broker_id(""), 0);
    assert_eq!(parse_broker_id("+"), 0);
    assert_eq!(parse_broker_id("-1"), 0);
    assert_eq!(parse_broker_id("x"), 0);
    assert_eq!(parse_broker_id("1x"), 0);
    assert_eq!(parse_broker_id(" 1"), 0);
    assert_eq!(parse_broker_id("1 "), 0);
    assert_eq!(parse_broker_id("1_0"), 0);
    assert_eq!(parse_broker_id("++1"), 0);
}

#[test]
fn broker_id_that_does_not_fit_is_zero() {
    assert_eq!(parse_broker_id("99999999999999999999999999999999"), 0);
    let max = usize::MAX.to_string();
    assert_eq!(parse_broker_id(&max), usize::MAX);
}

#[test]
fn leader_for_digest_follows_the_selected_entry() {
    let addrs = strings(&["a:1", "b:2", "c:3"]);
    let children = strings(&["2", "0", "1"]);
    assert_eq!(leader_for_digest(0, &children, &addrs), Some("c:3".to_string()));
    assert_eq!(leader_for_digest(1, &children, &addrs), Some("a:1".to_string()));
    assert_eq!(leader_for_digest(2, &children, &addrs), Some("b:2".to_string()));
    assert_eq!(leader_for_digest(3, &children, &addrs), Some("c:3".to_string()));
}

#[test]
fn leader_for_digest_takes_a_bad_entry_for_broker_zero() {
    let addrs = strings(&["a:1", "b:2"]);
    let children = strings(&["lost", "1"]);
    assert_eq!(leader_for_digest(0, &children, &addrs), Some("a:1".to_string()));
    assert_eq!(leader_for_digest(1, &children, &addrs), Some("b:2".to_string()));
}

#[test]
fn no_leader_without_live_brokers() {
    let addrs = strings(&["a:1", "b:2"]);
    let children: Vec<String> = Vec::new();
    assert_eq!(leader_for_digest(5, &children, &addrs), None);
    assert_eq!(resolve("orders", &children, &addrs), None);
}

#[test]
fn no_leader_where_the_entry_names_no_configured_broker() {
    let addrs = strings(&["a:1", "b:2"]);
    let children = strings(&["2"]);
    assert_eq!(leader_for_digest(0, &children, &addrs), None);
    assert_eq!(resolve("orders", &children, &addrs), None);
    let none: Vec<String> = Vec::new();
    assert_eq!(resolve("orders", &strings(&["0"]), &none), None);
}

#[test]
fn resolve_picks_the_entry_that_the_topic_hashes_to() {
    let addrs = strings(&["a:1", "b:2", "c:3", "d:4", "e:5"]);
    let children = strings(&["4", "3", "2", "1", "0"]);
    let mut seen = [false; 5];
    for n in 0..64 {
        let topic = format!("topic-{}", n);
        let slot = (digest_of(&topic) as usize) % children.len();
        let id: usize = children[slot].parse().unwrap();
        assert_eq!(resolve(&topic, &children, &addrs), Some(addrs[id].clone()));
        assert_eq!(find_leader(&topic, &children, &addrs), addrs[id]);
        seen[id] = true;
    }
    assert!(seen.iter().filter(|s| **s).count() > 1);
}

#[test]
fn every_node_resolves_the_same_leader() {
    let addrs = strings(&["a:1", "b:2", "c:3"]);
    let children = strings(&["0", "1", "2"]);
    let first = find_leader("orders", &children, &addrs);
    for _ in 0..10 {
        assert_eq!(find_leader("orders", &children, &addrs), first);
    }
    assert!(addrs.contains(&first));
}

#[test]
fn a_single_live_broker_leads_every_topic() {
    let addrs = strings(&["a:1", "b:2", "c:3"]);
    let children = strings(&["1"]);
    assert_eq!(find_leader("orders", &children, &addrs), "b:2");
    assert_eq!(find_leader("alerts", &children, &addrs), "b:2");
    assert_eq!(find_leader("", &children, &addrs), "b:2");
}
