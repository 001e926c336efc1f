//! What holds of a node, and of a cluster of nodes, over the operations of
//! the broker. Each statement here is proved from the definitions that the
//! contracts of the operations use.

use crate::broker::log_store::gapless;
use crate::broker::log_store::lemma_append_gapless;
use crate::broker::log_store::logged;
use crate::broker::manager::fanout;
use crate::broker::manager::ManagerView;
use crate::broker::subscriber_map::distinct_subscribers;
use crate::broker::subscriber_map::subscribed;
use crate::leader_util::broker_id;
use crate::leader_util::leader_of;
use crate::leader_util::resolvable;
use crate::leader_util::slot_of;
use crate::leader_util::topic_hash;
use crate::transaction::addressed;
use crate::transaction::MessageView;
use crate::transaction::OutboundView;
use vstd::prelude::*;

verus! {

/// The number of messages among `outbound` that go to `address`.
pub open spec fn sent_to(outbound: Seq<OutboundView>, address: Seq<char>) -> nat {
    outbound.filter(|sent: OutboundView| sent.address == address).len()
}

/// Keeping the items of a list without repetitions that meet a condition
/// gives a list without repetitions, of exactly the items that meet it.
proof fn lemma_filter_distinct<A>(list: Seq<A>, keep: spec_fn(A) -> bool)
    requires
        list.no_duplicates(),
    ensures
        list.filter(keep).no_duplicates(),
        forall|item: A| list.filter(keep).contains(item) <==> list.contains(item) && keep(item),
    decreases list.len(),
{
    reveal(Seq::filter);
    if list.len() > 0 {
        let front = list.drop_last();
        let last = list.last();
        lemma_filter_distinct(front, keep);
        assert(list =~= front.push(last));
        assert forall|item: A| list.contains(item) <==> front.contains(item) || item == last by {
            if front.contains(item) {
                let i = front.index_of(item);
                assert(list[i] == item);
            }
            if item == last {
                assert(list[list.len() - 1] == item);
            }
        }
        assert(!front.contains(last)) by {
            if front.contains(last) {
                let i = front.index_of(last);
                assert(list[i] == list[list.len() - 1]);
            }
        }
        let kept = front.filter(keep);
        if keep(last) {
            assert(list.filter(keep) == kept.push(last));
            assert(!kept.contains(last));
            assert forall|item: A| kept.push(last).contains(item) <==> kept.contains(item) || item
                == last by {
                if kept.contains(item) {
                    let i = kept.index_of(item);
                    assert(kept.push(last)[i] == item);
                }
                if item == last {
                    assert(kept.push(last)[kept.len() as int] == item);
                }
            }
        }
    }
}

/// Among the messages addressed to each of a list of distinct addresses, one
/// goes to an address of the list and none to any other.
proof fn lemma_sent_to_addressed(addresses: Seq<Seq<char>>, message: MessageView, address: Seq<char>)
    requires
        addresses.no_duplicates(),
    ensures
        sent_to(addressed(addresses, message), address) == (if addresses.contains(address) {
            1nat
        } else {
            0nat
        }),
    decreases addresses.len(),
{
    reveal(Seq::filter);
    let to_address = |sent: OutboundView| sent.address == address;
    if addresses.len() == 0 {
        assert(addressed(addresses, message) =~= Seq::<OutboundView>::empty());
    } else {
        let front = addresses.drop_last();
        let last = addresses.last();
        lemma_sent_to_addressed(front, message, address);
        let sent = OutboundView { address: last, message };
        assert(addressed(addresses, message) =~= addressed(front, message).push(sent));
        addressed(front, message).lemma_filter_push(sent, to_address);
        if front.contains(address) {
            let i = front.index_of(address);
            assert(addresses[i] == address);
            assert(last != address) by {
                if last == address {
                    assert(addresses[i] == addresses[addresses.len() - 1]);
                }
            }
        } else if addresses.contains(address) {
            let i = addresses.index_of(address);
            if i < front.len() {
                assert(front[i] == address);
            }
        }
        if last == address {
            assert(addresses[addresses.len() - 1] == address);
        }
    }
}

/// In a cluster whose nodes have distinct addresses, one node and no other is
/// the leader of a topic, as long as the live brokers stay the same: every
/// node determines the same leader, and only the node at that address routes
/// the topic's messages, so none is delivered by two nodes.
pub proof fn lemma_one_leader(topic: Seq<char>, children: Seq<Seq<char>>, addrs: Seq<Seq<char>>)
    requires
        addrs.no_duplicates(),
        resolvable(topic, children, addrs),
    ensures
        ({
            let owner = broker_id(children[slot_of(topic_hash(topic), children.len())]) as int;
            &&& 0 <= owner < addrs.len()
            &&& forall|node: int|
                0 <= node < addrs.len() ==> (#[trigger] addrs[node] == leader_of(topic, children, addrs) <==> node
                    == owner)
        }),
{
}

/// A node that is not the leader of the pending message's topic asks for
/// nothing to be sent, neither to peers nor to subscribers; the leader asks
/// for the deliveries to the connected subscribers and, for a consistent
/// message, for one copy to each peer.
pub proof fn lemma_only_leader_routes<C, B>(node: ManagerView<C, B>, leader: Seq<char>)
    requires
        node.message_queue.len() > 0,
    ensures
        !node.is_leader(leader) ==> node.routing(leader).backups.len() == 0 && node.routing(
            leader,
        ).deliveries.len() == 0,
        node.is_leader(leader) ==> node.routing(leader).deliveries == node.deliveries(
            node.message_queue.last().topic,
            node.message_queue.last().message,
            node.message_queue.last().is_consistent,
        ),
        node.is_leader(leader) && node.message_queue.last().is_consistent ==> node.routing(leader).backups
            == node.replication(node.message_queue.last().topic, node.message_queue.last().message),
        node.is_leader(leader) && !node.message_queue.last().is_consistent ==> node.routing(
            leader,
        ).backups.len() == 0,
{
}

/// Two nodes of a cluster with distinct addresses never both route a message
/// of the same topic: at least one of them asks for nothing to be sent.
pub proof fn lemma_no_duplicate_routing<C, B>(
    one: ManagerView<C, B>,
    other: ManagerView<C, B>,
    leader: Seq<char>,
)
    requires
        one.addrs == other.addrs,
        one.addrs.no_duplicates(),
        one.has_identity(),
        other.has_identity(),
        one.node_id != other.node_id,
    ensures
        !(one.is_leader(leader) && other.is_leader(leader)),
        (one.routing(leader).backups.len() == 0 && one.routing(leader).deliveries.len() == 0) || (
        other.routing(leader).backups.len() == 0 && other.routing(leader).deliveries.len() == 0),
{
}

/// A drain cycle keeps the sequence ids of every topic's log 0, 1, 2 and so
/// on; a consistent message enters the log of its topic with the id that
/// follows the last one, on whichever node the cycle runs.
pub proof fn lemma_cycle_keeps_sequence_ids<C, B>(node: ManagerView<C, B>)
    requires
        gapless(node.logs),
        forall|topic: Seq<char>| logged(node.logs, topic).len() <= u64::MAX,
    ensures
        gapless(node.after_cycle().logs),
        node.message_queue.len() > 0 && node.message_queue.last().is_consistent ==> ({
            let pending = node.message_queue.last();
            let log = logged(node.after_cycle().logs, pending.topic);
            &&& log.len() == logged(node.logs, pending.topic).len() + 1
            &&& log.last().jid == logged(node.logs, pending.topic).len()
            &&& log.last().content == pending.message
        }),
        node.message_queue.len() > 0 && !node.message_queue.last().is_consistent ==> node.after_cycle().logs
            == node.logs,
{
    if node.message_queue.len() > 0 && node.message_queue.last().is_consistent {
        let pending = node.message_queue.last();
        lemma_append_gapless(node.logs, pending.topic, pending.message);
    }
}

/// The leader asks for one copy of a consistent message to each other node
/// of the cluster, in cluster order, and for none to itself.
pub proof fn lemma_replication_reaches_every_peer<C, B>(
    node: ManagerView<C, B>,
    topic: Seq<char>,
    message: Seq<char>,
)
    requires
        node.has_identity(),
    ensures
        node.replication(topic, message).len() == node.addrs.len() - 1,
        forall|i: int|
            0 <= i < node.addrs.len() - 1 ==> #[trigger] node.replication(topic, message)[i] == (OutboundView {
                address: node.addrs[if i < node.node_id {
                    i
                } else {
                    i + 1
                }],
                message: MessageView { topic, message, is_consistent: true },
            }),
{
}

/// A backup that takes in the copy the leader sent it logs the message as the
/// leader did: if the two logs of the topic agreed before, they agree after,
/// and the backup, not being the leader, asks for nothing to be sent.
pub proof fn lemma_backup_log_follows_leader<C, B>(
    leader_node: ManagerView<C, B>,
    backup_node: ManagerView<C, B>,
    leader: Seq<char>,
    copy: int,
)
    requires
        leader_node.message_queue.len() > 0,
        leader_node.message_queue.last().is_consistent,
        leader_node.is_leader(leader),
        !backup_node.is_leader(leader),
        0 <= copy < leader_node.routing(leader).backups.len(),
        logged(leader_node.logs, leader_node.message_queue.last().topic) == logged(
            backup_node.logs,
            leader_node.message_queue.last().topic,
        ),
    ensures
        ({
            let sent = leader_node.routing(leader).backups[copy].message;
            let taken = backup_node.after_publish(sent.topic, sent.message, true);
            &&& sent.is_consistent
            &&& sent.topic == leader_node.message_queue.last().topic
            &&& sent.message == leader_node.message_queue.last().message
            &&& logged(taken.after_cycle().logs, sent.topic) == logged(leader_node.after_cycle().logs, sent.topic)
            &&& taken.routing(leader).backups.len() == 0
            &&& taken.routing(leader).deliveries.len() == 0
            &&& taken.after_cycle().message_queue == backup_node.message_queue
        }),
{
    let sent = leader_node.routing(leader).backups[copy].message;
    let taken = backup_node.after_publish(sent.topic, sent.message, true);
    assert(taken.message_queue.last() == sent);
    assert(taken.message_queue.drop_last() =~= backup_node.message_queue);
}

/// After a subscriber of a topic was hooked, the cycle that routes the next
/// message published on the topic, on the leader, asks for exactly one
/// message to that subscriber, and it is the published one. If the subscriber
/// was unhooked before the cycle, the cycle asks for none to it.
pub proof fn lemma_hooked_subscriber_served_once<C, B>(
    node: ManagerView<C, B>,
    address: Seq<char>,
    handle: C,
    topic: Seq<char>,
    message: Seq<char>,
    is_consistent: bool,
)
    requires
        distinct_subscribers(node.subscriber_map),
        subscribed(node.subscriber_map, topic).contains(address),
    ensures
        ({
            let hooked = node.after_hook(address, Ok(handle)).after_publish(topic, message, is_consistent);
            let routing = hooked.routing(hooked.own_address());
            &&& sent_to(routing.deliveries, address) == 1
            &&& routing.deliveries.contains(
                OutboundView { address, message: MessageView { topic, message, is_consistent } },
            )
        }),
        ({
            let unhooked = node.after_hook(address, Ok(handle)).after_unhook(address).after_publish(
                topic,
                message,
                is_consistent,
            );
            sent_to(unhooked.routing(unhooked.own_address()).deliveries, address) == 0
        }),
{
    let pushed = MessageView { topic, message, is_consistent };
    let listed = subscribed(node.subscriber_map, topic);
    assert(listed.no_duplicates());
    let hooked = node.after_hook(address, Ok(handle)).after_publish(topic, message, is_consistent);
    assert(hooked.message_queue.last() == pushed);
    let served = fanout(hooked.subscriber_map, hooked.client_map, topic);
    lemma_filter_distinct(listed, |a: Seq<char>| hooked.client_map.contains_key(a));
    assert(served.contains(address));
    lemma_sent_to_addressed(served, pushed, address);
    let at = served.index_of(address);
    assert(addressed(served, pushed)[at] == OutboundView { address, message: pushed });
    let unhooked = node.after_hook(address, Ok(handle)).after_unhook(address).after_publish(
        topic,
        message,
        is_consistent,
    );
    assert(unhooked.message_queue.last() == pushed);
    let left = fanout(unhooked.subscriber_map, unhooked.client_map, topic);
    lemma_filter_distinct(listed, |a: Seq<char>| unhooked.client_map.contains_key(a));
    assert(!left.contains(address));
    lemma_sent_to_addressed(left, pushed, address);
}

/// A best-effort message that a node other than the leader of its topic
/// takes off its queue reaches nobody: the cycle asks for nothing to be sent
/// and logs nothing.
pub proof fn lemma_best_effort_dropped<C, B>(node: ManagerView<C, B>, leader: Seq<char>)
    requires
        node.message_queue.len() > 0,
        !node.message_queue.last().is_consistent,
        !node.is_leader(leader),
    ensures
        node.routing(leader).deliveries.len() == 0,
        node.routing(leader).backups.len() == 0,
        node.after_cycle().logs == node.logs,
        node.after_cycle().message_queue == node.message_queue.drop_last(),
{
}

/// Hooking an address twice is hooking it once with the second connection:
/// the address has one connection, the second, and the table has as many
/// entries as after the first hook.
pub proof fn lemma_hook_twice<C, B>(node: ManagerView<C, B>, address: Seq<char>, first: C, second: C)
    ensures
        node.after_hook(address, Ok(first)).after_hook(address, Ok(second)) == node.after_hook(
            address,
            Ok(second),
        ),
        node.after_hook(address, Ok(first)).after_hook(address, Ok(second)).client_map.contains_key(address),
        node.after_hook(address, Ok(first)).after_hook(address, Ok(second)).client_map[address] == second,
        node.after_hook(address, Ok(first)).after_hook(address, Ok(second)).client_map.dom()
            == node.after_hook(address, Ok(first)).client_map.dom(),
{
    let once = node.after_hook(address, Ok(first));
    let twice = once.after_hook(address, Ok(second));
    assert(twice.client_map =~= node.after_hook(address, Ok(second)).client_map);
    assert(twice.client_map.dom() =~= once.client_map.dom());
}

} // verus!
