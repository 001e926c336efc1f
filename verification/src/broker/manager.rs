//! The routing state of one broker node, and the drain cycle that routes one
//! pending message.
//!
//! A cycle takes one message off the pending queue. A consistent message is
//! appended to the durability log of its topic on every node that sees it.
//! Only the node that is the leader of the topic acts on a message: it has a
//! consistent message replicated to every peer, and any message delivered to
//! the connected subscribers of the topic. The cycle sends nothing itself: it
//! returns what is to be sent.

use crate::broker::log_store::appended;
use crate::broker::log_store::LogStore;
use crate::broker::subscriber_map::subscribed;
use crate::broker::subscriber_map::SubscriberMap;
use crate::leader_util::find_leader;
use crate::leader_util::leader_of;
use crate::leader_util::resolvable;
use crate::leader_util::resolve;
use crate::result::JasmineResult;
use crate::table::Table;
use crate::transaction::addressed;
use crate::transaction::JasmineMessage;
use crate::transaction::LogView;
use crate::transaction::MessageView;
use crate::transaction::Outbound;
use crate::transaction::OutboundView;
use vstd::prelude::*;

verus! {

/// The cluster addresses other than the one at position `node_id`, in cluster
/// order.
pub open spec fn peers(addrs: Seq<Seq<char>>, node_id: int) -> Seq<Seq<char>> {
    if 0 <= node_id < addrs.len() {
        addrs.remove(node_id)
    } else {
        addrs
    }
}

/// The subscribers of `topic` that have an open connection, in the order in
/// which they subscribed.
pub open spec fn fanout<C>(
    subscriber_map: Map<Seq<char>, Seq<Seq<char>>>,
    client_map: Map<Seq<char>, C>,
    topic: Seq<char>,
) -> Seq<Seq<char>> {
    subscribed(subscriber_map, topic).filter(|address: Seq<char>| client_map.contains_key(address))
}

/// The mathematical model of what a drain cycle asks to have sent.
pub struct RoutingView {
    pub backups: Seq<OutboundView>,
    pub deliveries: Seq<OutboundView>,
}

/// What a drain cycle asks to have sent.
#[derive(Debug)]
pub struct Routing {
    /// The copies to push to the backup ingestion of peers, in cluster order.
    pub backups: Vec<Outbound>,
    /// The messages to push to subscribers, in subscription order.
    pub deliveries: Vec<Outbound>,
}

impl View for Routing {
    type V = RoutingView;

    open spec fn view(&self) -> RoutingView {
        RoutingView { backups: self.backups.deep_view(), deliveries: self.deliveries.deep_view() }
    }
}

/// The mathematical model of the routing state of a node.
#[verifier::ext_equal]
pub struct ManagerView<C, B> {
    pub subscriber_map: Map<Seq<char>, Seq<Seq<char>>>,
    pub client_map: Map<Seq<char>, C>,
    pub message_queue: Seq<MessageView>,
    pub back_ups: Map<Seq<char>, B>,
    pub addrs: Seq<Seq<char>>,
    pub node_id: usize,
    pub logs: Map<Seq<char>, Seq<LogView>>,
}

impl<C, B> ManagerView<C, B> {
    /// The node's ordinal is a position in the list of cluster addresses.
    pub open spec fn has_identity(self) -> bool {
        self.node_id < self.addrs.len()
    }

    /// The address of this node.
    pub open spec fn own_address(self) -> Seq<char> {
        self.addrs[self.node_id as int]
    }

    /// Whether this node is the one at address `leader`.
    pub open spec fn is_leader(self, leader: Seq<char>) -> bool {
        leader == self.own_address()
    }

    /// The state after `message` was appended to the log of `topic`.
    pub open spec fn after_append_log(self, topic: Seq<char>, message: Seq<char>) -> Self {
        ManagerView { logs: appended(self.logs, topic, message), ..self }
    }

    /// The copies of a consistent message that go to the peers.
    pub open spec fn replication(self, topic: Seq<char>, message: Seq<char>) -> Seq<OutboundView> {
        addressed(
            peers(self.addrs, self.node_id as int),
            MessageView { topic, message, is_consistent: true },
        )
    }

    /// The messages that go to the connected subscribers of a topic.
    pub open spec fn deliveries(
        self,
        topic: Seq<char>,
        message: Seq<char>,
        is_consistent: bool,
    ) -> Seq<OutboundView> {
        addressed(
            fanout(self.subscriber_map, self.client_map, topic),
            MessageView { topic, message, is_consistent },
        )
    }

    /// The state after one drain cycle: the most recently queued message has
    /// left the queue and, if it is consistent, stands at the end of the log
    /// of its topic. An empty queue leaves the state as it is.
    pub open spec fn after_cycle(self) -> Self {
        if self.message_queue.len() == 0 {
            self
        } else {
            let pending = self.message_queue.last();
            ManagerView {
                message_queue: self.message_queue.drop_last(),
                logs: if pending.is_consistent {
                    appended(self.logs, pending.topic, pending.message)
                } else {
                    self.logs
                },
                ..self
            }
        }
    }

    /// What one drain cycle asks to have sent when the topic of the pending
    /// message is led by the node at `leader`: nothing where the queue is
    /// empty or this node is not the leader; else the deliveries to the
    /// connected subscribers and, for a consistent message, the copies to the
    /// peers.
    pub open spec fn routing(self, leader: Seq<char>) -> RoutingView {
        if self.message_queue.len() == 0 || !self.is_leader(leader) {
            RoutingView { backups: Seq::empty(), deliveries: Seq::empty() }
        } else {
            let pending = self.message_queue.last();
            RoutingView {
                backups: if pending.is_consistent {
                    self.replication(pending.topic, pending.message)
                } else {
                    Seq::empty()
                },
                deliveries: self.deliveries(pending.topic, pending.message, pending.is_consistent),
            }
        }
    }

    /// Whether a leader can be determined for the pending message, if there
    /// is one, from the live broker entries `children`.
    pub open spec fn pending_resolvable(self, children: Seq<Seq<char>>) -> bool {
        self.message_queue.len() > 0 ==> resolvable(self.message_queue.last().topic, children, self.addrs)
    }

    /// The leader of the pending message's topic.
    pub open spec fn pending_leader(self, children: Seq<Seq<char>>) -> Seq<char> {
        leader_of(self.message_queue.last().topic, children, self.addrs)
    }

    /// What one drain cycle asks to have sent when the leader is determined
    /// from the live broker entries `children`.
    pub open spec fn resolved_routing(self, children: Seq<Seq<char>>) -> RoutingView {
        if self.message_queue.len() == 0 {
            RoutingView { backups: Seq::empty(), deliveries: Seq::empty() }
        } else {
            self.routing(self.pending_leader(children))
        }
    }
}

/// The routing state of one broker node.
pub struct Manager<C, B> {
    /// Who subscribes to which topic.
    pub subscriber_map: SubscriberMap,
    /// The open connection to each hooked subscriber, by its address.
    pub client_map: Table<C>,
    /// The messages that wait to be routed. The last one is routed first.
    pub message_queue: Vec<JasmineMessage>,
    /// The open connection to each peer that was reached before, by address.
    pub back_ups: Table<B>,
    /// The addresses of the cluster's nodes.
    pub addrs: Vec<String>,
    /// The position of this node in `addrs`.
    pub node_id: usize,
    /// The durability log of each topic.
    pub logs: LogStore,
}

impl<C, B> View for Manager<C, B> {
    type V = ManagerView<C, B>;

    open spec fn view(&self) -> ManagerView<C, B> {
        ManagerView {
            subscriber_map: self.subscriber_map@,
            client_map: self.client_map@,
            message_queue: self.message_queue.deep_view(),
            back_ups: self.back_ups@,
            addrs: self.addrs.deep_view(),
            node_id: self.node_id,
            logs: self.logs@,
        }
    }
}

impl<C, B> Manager<C, B> {
    /// Each of the tables is well-formed.
    pub open spec fn wf(&self) -> bool {
        &&& self.subscriber_map.wf()
        &&& self.client_map.wf()
        &&& self.back_ups.wf()
        &&& self.logs.wf()
    }

    /// A node over the given tables, at position `node_id` of `addrs`.
    pub fn new(
        subscriber_map: SubscriberMap,
        client_map: Table<C>,
        message_queue: Vec<JasmineMessage>,
        back_ups: Table<B>,
        addrs: Vec<String>,
        node_id: usize,
        logs: LogStore,
    ) -> (manager: Self)
        requires
            subscriber_map.wf(),
            client_map.wf(),
            back_ups.wf(),
            logs.wf(),
        ensures
            manager.wf(),
            manager.subscriber_map == subscriber_map,
            manager.client_map == client_map,
            manager.message_queue == message_queue,
            manager.back_ups == back_ups,
            manager.addrs == addrs,
            manager.node_id == node_id,
            manager.logs == logs,
    {
        Manager { subscriber_map, client_map, message_queue, back_ups, addrs, node_id, logs }
    }

    /// Appends `message` to the durability log of `topic`. The entry gets the
    /// next sequence id of the topic and is not ready.
    pub fn append_log(&mut self, topic: String, message: String) -> (done: JasmineResult<()>)
        requires
            old(self).wf(),
        ensures
            done is Ok,
            final(self).wf(),
            final(self)@ == old(self)@.after_append_log(topic@, message@),
    {
        self.logs.append(topic, message);
        Ok(())
    }

    /// The copies of a consistent message that go to the backup ingestion of
    /// every node of the cluster but this one, in cluster order. Each copy is
    /// marked consistent.
    pub fn copy_to_backup(&self, topic: String, message: String) -> (copies: JasmineResult<Vec<Outbound>>)
        ensures
            copies matches Ok(list) && list.deep_view() == self@.replication(topic@, message@),
    {
        let mut list: Vec<Outbound> = Vec::new();
        let ghost addrs = self.addrs.deep_view();
        let ghost copy = MessageView { topic: topic@, message: message@, is_consistent: true };
        let mut i: usize = 0;
        assert(list.deep_view() =~= addressed(peers(addrs.take(0), self.node_id as int), copy));
        while i < self.addrs.len()
            invariant
                i <= self.addrs.len(),
                addrs == self.addrs.deep_view(),
                copy == (MessageView { topic: topic@, message: message@, is_consistent: true }),
                list.deep_view() == addressed(peers(addrs.take(i as int), self.node_id as int), copy),
            decreases self.addrs.len() - i,
        {
            let ghost sent = list.deep_view();
            if i != self.node_id {
                let outbound = Outbound {
                    address: self.addrs[i].clone(),
                    message: JasmineMessage {
                        topic: topic.clone(),
                        message: message.clone(),
                        is_consistent: true,
                    },
                };
                list.push(outbound);
                assert(list.deep_view() =~= sent.push(outbound@));
                assert(peers(addrs.take(i + 1), self.node_id as int) =~= peers(
                    addrs.take(i as int),
                    self.node_id as int,
                ).push(addrs[i as int]));
            } else {
                assert(peers(addrs.take(i + 1), self.node_id as int) =~= peers(
                    addrs.take(i as int),
                    self.node_id as int,
                ));
            }
            assert(list.deep_view() =~= addressed(peers(addrs.take(i + 1), self.node_id as int), copy));
            i = i + 1;
        }
        assert(addrs.take(self.addrs.len() as int) =~= addrs);
        Ok(list)
    }

    /// The messages that go to the subscribers of `topic`: one for each
    /// subscriber that has an open connection, in subscription order. A
    /// subscriber without a connection is passed over; a topic without
    /// subscribers gives none.
    pub fn pub_message_to_subscriber(
        &self,
        topic: String,
        message: String,
        is_consistent: bool,
    ) -> (deliveries: JasmineResult<Vec<Outbound>>)
        requires
            self.wf(),
        ensures
            deliveries matches Ok(list) && list.deep_view() == self@.deliveries(
                topic@,
                message@,
                is_consistent,
            ),
    {
        let mut list: Vec<Outbound> = Vec::new();
        let ghost pushed = MessageView { topic: topic@, message: message@, is_consistent };
        let ghost hooked = |address: Seq<char>| self.client_map@.contains_key(address);
        let subscribers = match self.subscriber_map.get(&topic) {
            Some(subscribers) => subscribers,
            None => {
                proof {
                    reveal(Seq::filter);
                }
                assert(list.deep_view() =~= addressed(Seq::<Seq<char>>::empty().filter(hooked), pushed));
                return Ok(list);
            },
        };
        let ghost listed = subscribers.deep_view();
        proof {
            reveal(Seq::filter);
            assert(listed.take(0) =~= Seq::<Seq<char>>::empty());
        }
        assert(list.deep_view() =~= addressed(listed.take(0).filter(hooked), pushed));
        let mut i: usize = 0;
        while i < subscribers.len()
            invariant
                self.wf(),
                i <= subscribers.len(),
                listed == subscribers.deep_view(),
                pushed == (MessageView { topic: topic@, message: message@, is_consistent }),
                hooked == (|address: Seq<char>| self.client_map@.contains_key(address)),
                list.deep_view() == addressed(listed.take(i as int).filter(hooked), pushed),
            decreases subscribers.len() - i,
        {
            let ghost sent = list.deep_view();
            proof {
                listed.lemma_take_succ_push(i as int);
                listed.take(i as int).lemma_filter_push(listed[i as int], hooked);
            }
            if self.client_map.contains_key(&subscribers[i]) {
                let outbound = Outbound {
                    address: subscribers[i].clone(),
                    message: JasmineMessage {
                        topic: topic.clone(),
                        message: message.clone(),
                        is_consistent,
                    },
                };
                list.push(outbound);
                assert(list.deep_view() =~= sent.push(outbound@));
            }
            assert(list.deep_view() =~= addressed(listed.take(i + 1).filter(hooked), pushed));
            i = i + 1;
        }
        assert(listed.take(subscribers.len() as int) =~= listed);
        Ok(list)
    }

    /// The open connection to the peer at `address`, if one is cached.
    pub fn backup_connection(&self, address: &String) -> (connection: Option<&B>)
        requires
            self.wf(),
        ensures
            connection is Some <==> self@.back_ups.contains_key(address@),
            connection matches Some(handle) ==> *handle == self@.back_ups[address@],
    {
        self.back_ups.get(address)
    }

    /// Records what came of an attempt to connect to the peer at `address`. A
    /// connection that was opened is cached under the address for later
    /// cycles. A failed attempt changes nothing and is handed back, so that
    /// the caller passes the peer over in this cycle.
    pub fn backup_connected(&mut self, address: String, connection: JasmineResult<B>) -> (done: JasmineResult<()>)
        requires
            old(self).wf(),
        ensures
            final(self).wf(),
            match connection {
                Ok(handle) => done is Ok && final(self)@ == (ManagerView {
                    back_ups: old(self)@.back_ups.insert(address@, handle),
                    ..old(self)@
                }),
                Err(error) => done == Err::<(), _>(error) && final(self)@ == old(self)@,
            },
    {
        match connection {
            Ok(handle) => {
                self.back_ups.insert(address, handle);
                Ok(())
            },
            Err(error) => Err(error),
        }
    }

    /// Whether this node is the one at address `leader`.
    pub fn is_leader(&self, leader: &String) -> (leads: bool)
        requires
            self@.has_identity(),
        ensures
            leads == self@.is_leader(leader@),
    {
        assert(self.addrs.deep_view()[self.node_id as int] == self.addrs[self.node_id as int]@);
        *leader == self.addrs[self.node_id]
    }

    /// One drain cycle, for a pending message whose topic is led by the node
    /// at `leader`. Takes the most recently queued message off the queue; a
    /// consistent message is appended to the log of its topic, whoever leads.
    /// Returns what is to be sent: nothing unless this node is the leader.
    /// With an empty queue nothing changes and nothing is to be sent.
    pub fn process_with_leader(&mut self, leader: &String) -> (routing: JasmineResult<Routing>)
        requires
            old(self).wf(),
            old(self)@.message_queue.len() > 0 ==> old(self)@.has_identity(),
        ensures
            final(self).wf(),
            final(self)@ == old(self)@.after_cycle(),
            routing matches Ok(plan) && plan@ == old(self)@.routing(leader@),
    {
        let ghost before = self@;
        let pending = match self.message_queue.pop() {
            Some(pending) => pending,
            None => {
                let plan = Routing { backups: Vec::new(), deliveries: Vec::new() };
                assert(self@ =~= before.after_cycle());
                assert(plan@.backups =~= Seq::<OutboundView>::empty());
                assert(plan@.deliveries =~= Seq::<OutboundView>::empty());
                return Ok(plan);
            },
        };
        assert(pending@ == before.message_queue.last());
        assert(self.message_queue.deep_view() =~= before.message_queue.drop_last());
        let leads = self.is_leader(leader);
        let JasmineMessage { topic, message, is_consistent } = pending;
        if is_consistent {
            self.logs.append(topic.clone(), message.clone());
        }
        assert(self@ =~= before.after_cycle());
        let mut plan = Routing { backups: Vec::new(), deliveries: Vec::new() };
        if leads {
            if is_consistent {
                match self.copy_to_backup(topic.clone(), message.clone()) {
                    Ok(copies) => {
                        plan.backups = copies;
                    },
                    Err(error) => {
                        return Err(error);
                    },
                }
            }
            match self.pub_message_to_subscriber(topic, message, is_consistent) {
                Ok(deliveries) => {
                    plan.deliveries = deliveries;
                },
                Err(error) => {
                    return Err(error);
                },
            }
        }
        assert(plan@.backups =~= before.routing(leader@).backups);
        assert(plan@.deliveries =~= before.routing(leader@).deliveries);
        Ok(plan)
    }

    /// One drain cycle, with the leader of the pending message's topic
    /// determined from the live broker entries `children`.
    pub fn process_message_queue(&mut self, children: &Vec<String>) -> (routing: JasmineResult<Routing>)
        requires
            old(self).wf(),
            old(self)@.message_queue.len() > 0 ==> old(self)@.has_identity(),
            old(self)@.pending_resolvable(children.deep_view()),
        ensures
            final(self).wf(),
            final(self)@ == old(self)@.after_cycle(),
            routing matches Ok(plan) && plan@ == old(self)@.resolved_routing(children.deep_view()),
    {
        let queued = self.message_queue.len();
        if queued == 0 {
            let plan = Routing { backups: Vec::new(), deliveries: Vec::new() };
            assert(plan@.backups =~= Seq::<OutboundView>::empty());
            assert(plan@.deliveries =~= Seq::<OutboundView>::empty());
            return Ok(plan);
        }
        assert(self.message_queue.deep_view().last() == self.message_queue[queued - 1]@);
        let leader = find_leader(self.message_queue[queued - 1].topic.as_str(), children, &self.addrs);
        self.process_with_leader(&leader)
    }

    /// One drain cycle where a leader can be determined for the pending
    /// message from `children`, as [`Manager::process_message_queue`] runs
    /// it; `None`, and no change, where none can be determined.
    pub fn try_process_message_queue(&mut self, children: &Vec<String>) -> (routing: Option<Routing>)
        requires
            old(self).wf(),
            old(self)@.message_queue.len() > 0 ==> old(self)@.has_identity(),
        ensures
            final(self).wf(),
            routing is Some <==> old(self)@.pending_resolvable(children.deep_view()),
            routing matches Some(plan) ==> final(self)@ == old(self)@.after_cycle() && plan@ == old(
                self,
            )@.resolved_routing(children.deep_view()),
            routing is None ==> final(self)@ == old(self)@,
    {
        let queued = self.message_queue.len();
        if queued > 0 {
            assert(self.message_queue.deep_view().last() == self.message_queue[queued - 1]@);
            if resolve(self.message_queue[queued - 1].topic.as_str(), children, &self.addrs).is_none() {
                return None;
            }
        }
        match self.process_message_queue(children) {
            Ok(plan) => Some(plan),
            Err(_) => None,
        }
    }
}

} // verus!
