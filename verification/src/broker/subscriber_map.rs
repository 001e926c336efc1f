//! Who subscribes to which topic.

use crate::strings::clone_strings;
use crate::strings::lemma_unique_position;
use crate::strings::position_in;
use crate::table::Table;
use vstd::prelude::*;

verus! {

/// The subscribers of `topic` in `registry`, in the order in which they
/// subscribed. A topic that the registry does not hold has none.
pub open spec fn subscribed(registry: Map<Seq<char>, Seq<Seq<char>>>, topic: Seq<char>) -> Seq<Seq<char>> {
    if registry.contains_key(topic) {
        registry[topic]
    } else {
        Seq::empty()
    }
}

/// The registry after `address` subscribed to `topic`: the topic is there, and
/// the address is among its subscribers once, behind the others if it is new.
pub open spec fn with_subscriber(
    registry: Map<Seq<char>, Seq<Seq<char>>>,
    topic: Seq<char>,
    address: Seq<char>,
) -> Map<Seq<char>, Seq<Seq<char>>> {
    let current = subscribed(registry, topic);
    registry.insert(
        topic,
        if current.contains(address) {
            current
        } else {
            current.push(address)
        },
    )
}

/// The registry after `address` unsubscribed from `topic`: unchanged where the
/// topic or the address is not there, else without that address.
pub open spec fn without_subscriber(
    registry: Map<Seq<char>, Seq<Seq<char>>>,
    topic: Seq<char>,
    address: Seq<char>,
) -> Map<Seq<char>, Seq<Seq<char>>> {
    if registry.contains_key(topic) && registry[topic].contains(address) {
        registry.insert(topic, registry[topic].remove(registry[topic].index_of(address)))
    } else {
        registry
    }
}

/// No address occurs twice among the subscribers of a topic.
pub open spec fn distinct_subscribers(registry: Map<Seq<char>, Seq<Seq<char>>>) -> bool {
    forall|topic: Seq<char>| registry.contains_key(topic) ==> (#[trigger] registry[topic]).no_duplicates()
}

/// Subscribing an address to a topic and then unsubscribing it leaves the
/// topic without that address, and unsubscribing once more changes nothing.
pub proof fn lemma_subscribe_unsubscribe(
    registry: Map<Seq<char>, Seq<Seq<char>>>,
    topic: Seq<char>,
    address: Seq<char>,
)
    requires
        distinct_subscribers(registry),
    ensures
        subscribed(with_subscriber(registry, topic, address), topic).contains(address),
        !subscribed(
            without_subscriber(with_subscriber(registry, topic, address), topic, address),
            topic,
        ).contains(address),
        without_subscriber(
            without_subscriber(with_subscriber(registry, topic, address), topic, address),
            topic,
            address,
        ) == without_subscriber(with_subscriber(registry, topic, address), topic, address),
{
    let joined = with_subscriber(registry, topic, address);
    lemma_with_subscriber(registry, topic, address);
    lemma_without_subscriber(joined, topic, address);
}

/// After an address subscribed to a topic it is among the topic's
/// subscribers, and still no address occurs twice.
pub proof fn lemma_with_subscriber(registry: Map<Seq<char>, Seq<Seq<char>>>, topic: Seq<char>, address: Seq<char>)
    requires
        distinct_subscribers(registry),
    ensures
        distinct_subscribers(with_subscriber(registry, topic, address)),
        subscribed(with_subscriber(registry, topic, address), topic).contains(address),
        with_subscriber(with_subscriber(registry, topic, address), topic, address) == with_subscriber(
            registry,
            topic,
            address,
        ),
{
    let current = subscribed(registry, topic);
    let joined = with_subscriber(registry, topic, address);
    if !current.contains(address) {
        assert(current.push(address)[current.len() as int] == address);
    }
    assert(joined[topic].contains(address));
    assert(joined[topic].no_duplicates());
    assert(with_subscriber(joined, topic, address) =~= joined);
}

/// After an address unsubscribed from a topic it is not among the topic's
/// subscribers, the others are, no address occurs twice, and unsubscribing it
/// again changes nothing.
pub proof fn lemma_without_subscriber(
    registry: Map<Seq<char>, Seq<Seq<char>>>,
    topic: Seq<char>,
    address: Seq<char>,
)
    requires
        distinct_subscribers(registry),
    ensures
        distinct_subscribers(without_subscriber(registry, topic, address)),
        !subscribed(without_subscriber(registry, topic, address), topic).contains(address),
        forall|other: Seq<char>|
            other != address ==> subscribed(without_subscriber(registry, topic, address), topic).contains(
                other,
            ) == subscribed(registry, topic).contains(other),
        without_subscriber(without_subscriber(registry, topic, address), topic, address)
            == without_subscriber(registry, topic, address),
{
    let left = without_subscriber(registry, topic, address);
    if registry.contains_key(topic) && registry[topic].contains(address) {
        let current = registry[topic];
        let at = current.index_of(address);
        let rest = current.remove(at);
        assert(left[topic] == rest);
        assert forall|i: int| 0 <= i < rest.len() implies #[trigger] rest[i] == current[if i < at {
            i
        } else {
            i + 1
        }] by {}
        assert(rest.no_duplicates());
        assert(!rest.contains(address)) by {
            if rest.contains(address) {
                let i = rest.index_of(address);
                assert(current[if i < at { i } else { i + 1 }] == address);
            }
        }
        assert forall|other: Seq<char>| other != address implies rest.contains(other) == current.contains(
            other,
        ) by {
            if current.contains(other) {
                let j = current.index_of(other);
                assert(rest[if j < at { j } else { j - 1 }] == other);
            }
            if rest.contains(other) {
                let i = rest.index_of(other);
                assert(current[if i < at { i } else { i + 1 }] == other);
            }
        }
    }
}

/// The registry of subscribers: for each topic, the addresses subscribed to
/// it, each at most once.
pub struct SubscriberMap {
    topics: Table<Vec<String>>,
}

impl View for SubscriberMap {
    type V = Map<Seq<char>, Seq<Seq<char>>>;

    closed spec fn view(&self) -> Map<Seq<char>, Seq<Seq<char>>> {
        self.topics@.map_values(|addresses: Vec<String>| addresses.deep_view())
    }
}

impl SubscriberMap {
    /// The table is sound and no topic lists an address twice.
    pub closed spec fn wf(&self) -> bool {
        &&& self.topics.wf()
        &&& distinct_subscribers(self@)
    }

    /// In a well-formed registry no topic lists an address twice.
    pub proof fn lemma_distinct(&self)
        requires
            self.wf(),
        ensures
            distinct_subscribers(self@),
    {
    }

    /// A registry without topics.
    pub fn new() -> (registry: Self)
        ensures
            registry.wf(),
            registry@ == Map::<Seq<char>, Seq<Seq<char>>>::empty(),
    {
        let registry = SubscriberMap { topics: Table::new() };
        assert(registry@ =~= Map::<Seq<char>, Seq<Seq<char>>>::empty());
        registry
    }

    /// Adds `address` to the subscribers of `topic`. The topic is created if
    /// it is not there; an address that is subscribed already stays as it is.
    pub fn subscribe(&mut self, topic: String, address: String)
        requires
            old(self).wf(),
        ensures
            final(self).wf(),
            final(self)@ == with_subscriber(old(self)@, topic@, address@),
    {
        let ghost before = self@;
        match self.topics.position(&topic) {
            Some(i) => {
                let addresses = self.topics.value_at_mut(i);
                let ghost listed = addresses.deep_view();
                if position_in(addresses, &address).is_none() {
                    addresses.push(address);
                    assert(addresses.deep_view() =~= listed.push(address@));
                }
                assert(self@ =~= with_subscriber(before, topic@, address@));
            },
            None => {
                let mut addresses: Vec<String> = Vec::new();
                addresses.push(address);
                assert(addresses.deep_view() =~= Seq::<Seq<char>>::empty().push(address@));
                self.topics.insert(topic, addresses);
                assert(self@ =~= with_subscriber(before, topic@, address@));
            },
        }
    }

    /// Removes `address` from the subscribers of `topic`. Nothing changes
    /// where the topic is not there or the address is not subscribed.
    pub fn unsubscribe(&mut self, topic: &String, address: &String)
        requires
            old(self).wf(),
        ensures
            final(self).wf(),
            final(self)@ == without_subscriber(old(self)@, topic@, address@),
    {
        let ghost before = self@;
        match self.topics.position(topic) {
            Some(i) => {
                let addresses = self.topics.value_at_mut(i);
                let ghost listed = addresses.deep_view();
                assert(before.contains_key(topic@) && before[topic@] == listed);
                match position_in(addresses, address) {
                    Some(at) => {
                        proof {
                            lemma_unique_position(listed, at as int);
                        }
                        addresses.remove(at);
                        assert(addresses.deep_view() =~= listed.remove(at as int));
                    },
                    None => {},
                }
                assert(self@ =~= without_subscriber(before, topic@, address@));
            },
            None => {},
        }
    }

    /// The subscribers of `topic`, if the registry holds the topic.
    pub fn get(&self, topic: &String) -> (addresses: Option<&Vec<String>>)
        requires
            self.wf(),
        ensures
            addresses is Some <==> self@.contains_key(topic@),
            addresses matches Some(list) ==> list.deep_view() == self@[topic@],
    {
        self.topics.get(topic)
    }

    /// A copy of the subscribers of `topic`, in the order in which they
    /// subscribed; empty where the registry does not hold the topic.
    pub fn subscribers(&self, topic: &String) -> (addresses: Vec<String>)
        requires
            self.wf(),
        ensures
            addresses.deep_view() == subscribed(self@, topic@),
    {
        match self.topics.get(topic) {
            Some(list) => clone_strings(list),
            None => {
                let empty: Vec<String> = Vec::new();
                assert(empty.deep_view() =~= Seq::<Seq<char>>::empty());
                empty
            },
        }
    }

    /// Whether `address` is subscribed to `topic`.
    pub fn is_subscribed(&self, topic: &String, address: &String) -> (listed: bool)
        requires
            self.wf(),
        ensures
            listed == subscribed(self@, topic@).contains(address@),
    {
        match self.topics.get(topic) {
            Some(list) => position_in(list, address).is_some(),
            None => false,
        }
    }
}

} // verus!
