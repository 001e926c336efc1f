use jasmine::broker::log_store::LogStore;
use jasmine::broker::manager::Manager;
use jasmine::broker::subscriber_map::SubscriberMap;
use jasmine::client::subscriber::JasmineSubscriber;
use jasmine::result::JasmineError;
use jasmine::result::JasmineResult;
use jasmine::table::Table;
use jasmine::transaction::Outbound;

fn s(text: &str) -> String {
    text.to_string()
}

fn strings(items: &[&str]) -> Vec<String> {
    items.iter().map(|a| a.to_string()).collect()
}

fn node(addrs: &[&str], node_id: usize) -> Manager<u32, u32> {
    Manager::new(
        SubscriberMap::new(),
        Table::new(),
        Vec::new(),
        Table::new(),
        strings(addrs),
        node_id,
        LogStore::new(),
    )
}

fn addresses(outbound: &[Outbound]) -> Vec<String> {
    outbound.iter().map(|o| o.address.clone()).collect()
}

const CLUSTER: [&str; 3] = ["n0:7000", "n1:7000", "n2:7000"];

#[test]
fn new_keeps_what_it_is_given() {
    let m = node(&CLUSTER, 2);
    assert_eq!(m.addrs, strings(&CLUSTER));
    assert_eq!(m.node_id, 2);
    assert!(m.message_queue.is_empty());
    assert_eq!(m.client_map.len(), 0);
    assert_eq!(m.back_ups.len(), 0);
    assert!(m.is_leader(&s("n2:7000")));
    assert!(!m.is_leader(&s("n1:7000")));
}

#[test]
fn publish_only_queues() {
    let mut m = node(&CLUSTER, 0);
    m.subscribe(s("orders"), s("sub-a")).unwrap();
    m.hook(s("sub-a"), Ok(1)).unwrap();
    assert_eq!(m.publish(s("orders"), s("m1"), true), Ok(()));
    assert_eq!(m.message_queue.len(), 1);
    assert_eq!(m.message_queue[0].topic, "orders");
    assert_eq!(m.message_queue[0].message, "m1");
    assert!(m.message_queue[0].is_consistent);
    assert_eq!(m.logs.len_of(&s("orders")), 0);
}

#[test]
fn backup_ingestion_queues_a_consistent_message() {
    let mut m = node(&CLUSTER, 0);
    assert_eq!(m.publish_backup(s("orders"), s("m1")), Ok(()));
    assert_eq!(m.message_queue.len(), 1);
    assert!(m.message_queue[0].is_consistent);
    assert_eq!(m.message_queue[0].message, "m1");
}

#[test]
fn ping_succeeds() {
    let m = node(&CLUSTER, 0);
    assert_eq!(m.ping(), Ok(()));
}

#[test]
fn hook_stores_the_connection() {
    let mut m = node(&CLUSTER, 0);
    assert_eq!(m.hook(s("sub-a"), Ok(7)), Ok(()));
    assert_eq!(m.client_map.get(&s("sub-a")), Some(&7));
    assert_eq!(m.client_map.len(), 1);
}

#[test]
fn hook_twice_leaves_one_connection_the_second() {
    let mut m = node(&CLUSTER, 0);
    m.hook(s("sub-a"), Ok(7)).unwrap();
    m.hook(s("sub-b"), Ok(8)).unwrap();
    m.hook(s("sub-a"), Ok(9)).unwrap();
    assert_eq!(m.client_map.len(), 2);
    assert_eq!(m.client_map.get(&s("sub-a")), Some(&9));
    assert_eq!(m.client_map.get(&s("sub-b")), Some(&8));
}

#[test]
fn hook_that_could_not_connect_fails_and_changes_nothing() {
    let mut m = node(&CLUSTER, 0);
    m.hook(s("sub-a"), Ok(7)).unwrap();
    assert_eq!(
        m.hook(s("sub-a"), Err(JasmineError::ConnectionError)),
        Err(JasmineError::ConnectionError)
    );
    assert_eq!(
        m.hook(s("sub-b"), Err(JasmineError::UnknownError)),
        Err(JasmineError::UnknownError)
    );
    assert_eq!(m.client_map.len(), 1);
    assert_eq!(m.client_map.get(&s("sub-a")), Some(&7));
    assert_eq!(m.client_map.get(&s("sub-b")), None);
}

#[test]
fn unhook_removes_and_never_fails() {
    let mut m = node(&CLUSTER, 0);
    m.hook(s("sub-a"), Ok(7)).unwrap();
    assert_eq!(m.unhook(s("sub-a")), Ok(()));
    assert_eq!(m.client_map.get(&s("sub-a")), None);
    assert_eq!(m.unhook(s("sub-a")), Ok(()));
    assert_eq!(m.unhook(s("never")), Ok(()));
    assert_eq!(m.client_map.len(), 0);
}

#[test]
fn subscribe_needs_no_connection() {
    let mut m = node(&CLUSTER, 0);
    assert_eq!(m.subscribe(s("orders"), s("sub-a")), Ok(()));
    assert_eq!(m.subscribe(s("orders"), s("sub-a")), Ok(()));
    assert_eq!(m.subscriber_map.subscribers(&s("orders")), vec![s("sub-a")]);
    assert_eq!(m.client_map.len(), 0);
}

#[test]
fn unsubscribe_then_repeat() {
    let mut m = node(&CLUSTER, 0);
    m.subscribe(s("orders"), s("sub-a")).unwrap();
    m.subscribe(s("orders"), s("sub-b")).unwrap();
    assert_eq!(m.unsubscribe(s("orders"), s("sub-a")), Ok(()));
    assert_eq!(m.subscriber_map.subscribers(&s("orders")), vec![s("sub-b")]);
    assert_eq!(m.unsubscribe(s("orders"), s("sub-a")), Ok(()));
    assert_eq!(m.unsubscribe(s("alerts"), s("sub-a")), Ok(()));
    assert_eq!(m.subscriber_map.subscribers(&s("orders")), vec![s("sub-b")]);
}

#[test]
fn append_log_numbers_entries_per_topic() {
    let mut m = node(&CLUSTER, 0);
    assert_eq!(m.append_log(s("orders"), s("m1")), Ok(()));
    assert_eq!(m.append_log(s("alerts"), s("a1")), Ok(()));
    assert_eq!(m.append_log(s("orders"), s("m2")), Ok(()));
    let orders = m.logs.get(&s("orders")).unwrap();
    assert_eq!(orders.len(), 2);
    assert_eq!(orders[0].jid, 0);
    assert_eq!(orders[1].jid, 1);
    assert_eq!(orders[1].content, "m2");
    assert!(!orders[1].is_ready);
    assert_eq!(m.logs.get(&s("alerts")).unwrap()[0].jid, 0);
}

#[test]
fn copy_to_backup_addresses_every_peer_in_order() {
    let m = node(&CLUSTER, 1);
    let copies = m.copy_to_backup(s("orders"), s("m1")).unwrap();
    assert_eq!(addresses(&copies), strings(&["n0:7000", "n2:7000"]));
    for copy in &copies {
        assert_eq!(copy.message.topic, "orders");
        assert_eq!(copy.message.message, "m1");
        assert!(copy.message.is_consistent);
    }
    let first = node(&CLUSTER, 0);
    assert_eq!(
        addresses(&first.copy_to_backup(s("t"), s("m")).unwrap()),
        strings(&["n1:7000", "n2:7000"])
    );
    let alone = node(&["n0:7000"], 0);
    assert!(alone.copy_to_backup(s("t"), s("m")).unwrap().is_empty());
}

#[test]
fn backup_connection_is_cached_once_opened() {
    let mut m = node(&CLUSTER, 1);
    assert_eq!(m.backup_connection(&s("n0:7000")), None);
    assert_eq!(
        m.backup_connected(s("n0:7000"), Err(JasmineError::ConnectionError)),
        Err(JasmineError::ConnectionError)
    );
    assert_eq!(m.backup_connection(&s("n0:7000")), None);
    assert_eq!(m.backup_connected(s("n0:7000"), Ok(40)), Ok(()));
    assert_eq!(m.backup_connection(&s("n0:7000")), Some(&40));
    assert_eq!(m.backup_connection(&s("n2:7000")), None);
    assert_eq!(m.back_ups.len(), 1);
}

#[test]
fn fanout_passes_over_subscribers_without_connection() {
    let mut m = node(&CLUSTER, 0);
    m.subscribe(s("orders"), s("sub-a")).unwrap();
    m.subscribe(s("orders"), s("sub-b")).unwrap();
    m.subscribe(s("orders"), s("sub-c")).unwrap();
    m.hook(s("sub-c"), Ok(3)).unwrap();
    m.hook(s("sub-a"), Ok(1)).unwrap();
    m.hook(s("other"), Ok(9)).unwrap();
    let deliveries = m.pub_message_to_subscriber(s("orders"), s("m1"), false).unwrap();
    assert_eq!(addresses(&deliveries), strings(&["sub-a", "sub-c"]));
    for delivery in &deliveries {
        assert_eq!(delivery.message.topic, "orders");
        assert_eq!(delivery.message.message, "m1");
        assert!(!delivery.message.is_consistent);
    }
    assert!(m.pub_message_to_subscriber(s("alerts"), s("m1"), true).unwrap().is_empty());
}

#[test]
fn empty_queue_is_a_cycle_without_effect() {
    let mut m = node(&CLUSTER, 0);
    let plan = m.process_with_leader(&s("n0:7000")).unwrap();
    assert!(plan.backups.is_empty());
    assert!(plan.deliveries.is_empty());
    let plan = m.process_message_queue(&Vec::new()).unwrap();
    assert!(plan.backups.is_empty());
    assert!(plan.deliveries.is_empty());
    assert!(m.try_process_message_queue(&Vec::new()).is_some());
    assert_eq!(m.logs.len_of(&s("orders")), 0);
}

#[test]
fn hooked_subscriber_gets_the_message_once_and_none_after_unhook() {
    let mut m = node(&CLUSTER, 1);
    m.subscribe(s("orders"), s("sub-a")).unwrap();
    m.subscribe(s("orders"), s("sub-a")).unwrap();
    m.hook(s("sub-a"), Ok(7)).unwrap();
    m.publish(s("orders"), s("m1"), false).unwrap();
    let plan = m.process_with_leader(&s("n1:7000")).unwrap();
    assert_eq!(addresses(&plan.deliveries), strings(&["sub-a"]));
    assert_eq!(plan.deliveries[0].message.message, "m1");
    assert!(plan.backups.is_empty());
    assert!(m.message_queue.is_empty());

    m.unhook(s("sub-a")).unwrap();
    m.publish(s("orders"), s("m2"), false).unwrap();
    let plan = m.process_with_leader(&s("n1:7000")).unwrap();
    assert!(plan.deliveries.is_empty());
    assert!(m.message_queue.is_empty());
}

#[test]
fn best_effort_message_on_a_non_leader_is_dropped() {
    let mut m = node(&CLUSTER, 0);
    m.subscribe(s("orders"), s("sub-a")).unwrap();
    m.hook(s("sub-a"), Ok(7)).unwrap();
    m.publish(s("orders"), s("m1"), false).unwrap();
    let plan = m.process_with_leader(&s("n1:7000")).unwrap();
    assert!(plan.deliveries.is_empty());
    assert!(plan.backups.is_empty());
    assert!(m.message_queue.is_empty());
    assert_eq!(m.logs.len_of(&s("orders")), 0);
}

#[test]
fn the_most_recently_queued_message_is_routed_first() {
    let mut m = node(&CLUSTER, 0);
    m.subscribe(s("orders"), s("sub-a")).unwrap();
    m.hook(s("sub-a"), Ok(7)).unwrap();
    m.publish(s("orders"), s("first"), true).unwrap();
    m.publish(s("orders"), s("second"), true).unwrap();
    let plan = m.process_with_leader(&s("n0:7000")).unwrap();
    assert_eq!(plan.deliveries[0].message.message, "second");
    let plan = m.process_with_leader(&s("n0:7000")).unwrap();
    assert_eq!(plan.deliveries[0].message.message, "first");
    let log = m.logs.get(&s("orders")).unwrap();
    assert_eq!(log[0].content, "second");
    assert_eq!(log[0].jid, 0);
    assert_eq!(log[1].content, "first");
    assert_eq!(log[1].jid, 1);
}

#[test]
fn three_nodes_consistent_message_on_a_topic_led_by_node_one() {
    let children = strings(&["1"]);

    let mut node0 = node(&CLUSTER, 0);
    node0.subscribe(s("orders"), s("sub-a")).unwrap();
    node0.hook(s("sub-a"), Ok(1)).unwrap();
    node0.publish(s("orders"), s("m1"), true).unwrap();
    let plan = node0.process_message_queue(&children).unwrap();
    assert!(plan.backups.is_empty());
    assert!(plan.deliveries.is_empty());
    let log = node0.logs.get(&s("orders")).unwrap();
    assert_eq!(log.len(), 1);
    assert_eq!(log[0].jid, 0);
    assert_eq!(log[0].content, "m1");
    assert!(!log[0].is_ready);

    let mut node1 = node(&CLUSTER, 1);
    node1.subscribe(s("orders"), s("sub-a")).unwrap();
    node1.subscribe(s("orders"), s("sub-b")).unwrap();
    node1.subscribe(s("orders"), s("sub-c")).unwrap();
    node1.subscribe(s("alerts"), s("sub-d")).unwrap();
    node1.hook(s("sub-a"), Ok(1)).unwrap();
    node1.hook(s("sub-c"), Ok(3)).unwrap();
    node1.hook(s("sub-d"), Ok(4)).unwrap();
    node1.publish(s("orders"), s("m1"), true).unwrap();
    let plan = node1.process_message_queue(&children).unwrap();
    assert_eq!(addresses(&plan.backups), strings(&["n0:7000", "n2:7000"]));
    for copy in &plan.backups {
        assert_eq!(copy.message.topic, "orders");
        assert_eq!(copy.message.message, "m1");
        assert!(copy.message.is_consistent);
    }
    assert_eq!(addresses(&plan.deliveries), strings(&["sub-a", "sub-c"]));
    for delivery in &plan.deliveries {
        assert_eq!(delivery.message.topic, "orders");
        assert_eq!(delivery.message.message, "m1");
        assert!(delivery.message.is_consistent);
    }
    let log = node1.logs.get(&s("orders")).unwrap();
    assert_eq!(log.len(), 1);
    assert_eq!(log[0].jid, 0);
    assert_eq!(log[0].content, "m1");

    let mut node2 = node(&CLUSTER, 2);
    node2.publish_backup(s("orders"), s("m1")).unwrap();
    let plan = node2.process_message_queue(&children).unwrap();
    assert!(plan.backups.is_empty());
    assert!(plan.deliveries.is_empty());
    assert_eq!(node2.logs.get(&s("orders")).unwrap()[0].jid, 0);
}

#[test]
fn consistent_message_on_a_topic_without_subscribers() {
    let children = strings(&["0"]);
    let mut leader = node(&CLUSTER, 0);
    leader.hook(s("sub-a"), Ok(1)).unwrap();
    leader.publish(s("alerts"), s("fire"), true).unwrap();
    let plan = leader.process_message_queue(&children);
    assert!(plan.is_ok());
    let plan = plan.unwrap();
    assert_eq!(addresses(&plan.backups), strings(&["n1:7000", "n2:7000"]));
    assert!(plan.deliveries.is_empty());
    let log = leader.logs.get(&s("alerts")).unwrap();
    assert_eq!(log.len(), 1);
    assert_eq!(log[0].jid, 0);
    assert_eq!(log[0].content, "fire");
}

#[test]
fn exactly_one_node_of_the_cluster_routes_a_message() {
    let children = strings(&["0", "1", "2"]);
    for topic in ["orders", "alerts", "t3", "t4", "t5"] {
        let mut acting = 0;
        for id in 0..CLUSTER.len() {
            let mut m = node(&CLUSTER, id);
            m.subscribe(s(topic), s("sub-a")).unwrap();
            m.hook(s("sub-a"), Ok(1)).unwrap();
            m.publish(s(topic), s("m"), true).unwrap();
            let plan = m.process_message_queue(&children).unwrap();
            assert_eq!(m.logs.len_of(&s(topic)), 1);
            if !plan.backups.is_empty() || !plan.deliveries.is_empty() {
                assert_eq!(plan.backups.len(), 2);
                assert_eq!(plan.deliveries.len(), 1);
                acting += 1;
            }
        }
        assert_eq!(acting, 1);
    }
}

#[test]
fn a_cycle_without_a_determinable_leader_is_refused() {
    let mut m = node(&CLUSTER, 0);
    m.publish(s("orders"), s("m1"), true).unwrap();
    assert!(m.try_process_message_queue(&Vec::new()).is_none());
    assert!(m.try_process_message_queue(&strings(&["3"])).is_none());
    assert_eq!(m.message_queue.len(), 1);
    assert_eq!(m.logs.len_of(&s("orders")), 0);
    let plan = m.try_process_message_queue(&strings(&["0"])).unwrap();
    assert_eq!(plan.backups.len(), 2);
    assert!(m.message_queue.is_empty());
    assert_eq!(m.logs.len_of(&s("orders")), 1);
}

#[test]
fn an_empty_queue_needs_no_identity() {
    let mut m = node(&[], 5);
    let plan = m.process_message_queue(&Vec::new()).unwrap();
    assert!(plan.backups.is_empty());
    assert!(plan.deliveries.is_empty());
    assert!(m.try_process_message_queue(&Vec::new()).is_some());
    assert_eq!(addresses(&m.copy_to_backup(s("t"), s("m")).unwrap()), Vec::<String>::new());
    let outside = node(&CLUSTER, 9);
    assert_eq!(addresses(&outside.copy_to_backup(s("t"), s("m")).unwrap()), strings(&CLUSTER));
}

#[test]
fn a_backup_logs_the_copy_as_the_leader_logged_the_message() {
    let children = strings(&["1"]);
    let mut leader = node(&CLUSTER, 1);
    let mut backup = node(&CLUSTER, 2);
    for payload in ["m1", "m2", "m3"] {
        leader.publish(s("orders"), s(payload), true).unwrap();
        let plan = leader.process_message_queue(&children).unwrap();
        assert_eq!(plan.backups.len(), 2);
        let copy = &plan.backups[1];
        assert_eq!(copy.address, "n2:7000");
        backup.publish_backup(copy.message.topic.clone(), copy.message.message.clone()).unwrap();
        let taken = backup.process_message_queue(&children).unwrap();
        assert!(taken.backups.is_empty());
        assert!(taken.deliveries.is_empty());
    }
    let ours = leader.logs.get(&s("orders")).unwrap();
    let theirs = backup.logs.get(&s("orders")).unwrap();
    assert_eq!(ours.len(), 3);
    assert_eq!(theirs.len(), 3);
    for i in 0..3 {
        assert_eq!(ours[i].jid, i as u64);
        assert_eq!(theirs[i].jid, ours[i].jid);
        assert_eq!(theirs[i].content, ours[i].content);
        assert_eq!(theirs[i].is_ready, ours[i].is_ready);
    }
}

struct Quiet;

impl JasmineSubscriber for Quiet {
    fn subscribe(_topic: String) -> JasmineResult<()> {
        Ok(())
    }

    fn unsubscribe(_topic: String) -> JasmineResult<()> {
        Err(JasmineError::UnknownError)
    }
}

#[test]
fn a_subscriber_can_be_implemented() {
    assert_eq!(Quiet::subscribe(s("orders")), Ok(()));
    assert_eq!(Quiet::unsubscribe(s("orders")), Err(JasmineError::UnknownError));
}
