//! Which broker owns a topic.
//!
//! The owner is picked by hashing the topic name over the list of live broker
//! entries. Every node that sees the same live list picks the same owner, so
//! no further agreement round is needed.

use std::collections::hash_map::DefaultHasher;
use std::hash::Hash;
use std::hash::Hasher;
use vstd::prelude::*;

verus! {

/// The digest that std's `DefaultHasher`, freshly made by `DefaultHasher::new`,
/// gives for a topic name. Hashers made by `new` are all the same, none is
/// seeded, so within one build of the standard library the digest depends on
/// the name alone; which number it is stays unspecified here. All nodes of a
/// cluster are expected to run the same build.
pub uninterp spec fn topic_hash(topic: Seq<char>) -> u64;

/// Feeds `topic` to a fresh `std::collections::hash_map::DefaultHasher`
/// (`DefaultHasher::new`, `Hash::hash`, `Hasher::finish`) and returns the
/// digest. Trusted: the result is the digest named by [`topic_hash`].
#[verifier::external_body]
fn hash_topic(topic: &str) -> (digest: u64)
    ensures
        digest == topic_hash(topic@),
{
    let mut hasher = DefaultHasher::new();
    topic.hash(&mut hasher);
    hasher.finish()
}

/// Whether `c` is one of the ten ASCII digits.
pub open spec fn is_digit(c: char) -> bool {
    48 <= c as u32 <= 57
}

/// The number a string of ASCII digits denotes in base ten.
pub open spec fn digits_value(digits: Seq<char>) -> nat
    decreases digits.len(),
{
    if digits.len() == 0 {
        0
    } else {
        digits_value(digits.drop_last()) * 10 + (digits.last() as u32 - 48) as nat
    }
}

/// What parsing `text` as a `usize` yields: an optional `+`, then at least one
/// digit and nothing but digits, denoting a number that fits.
pub open spec fn decimal(text: Seq<char>) -> Option<usize> {
    let digits = if text.len() > 0 && text[0] == '+' {
        text.drop_first()
    } else {
        text
    };
    if digits.len() > 0 && (forall|i: int| 0 <= i < digits.len() ==> is_digit(#[trigger] digits[i]))
        && digits_value(digits) <= usize::MAX {
        Some(digits_value(digits) as usize)
    } else {
        None
    }
}

/// Calls std's `str::parse::<usize>`. Trusted: the call succeeds exactly on an
/// optional `+` followed by one or more ASCII digits whose value fits in a
/// `usize`, and then returns that value, as [`decimal`] states.
#[verifier::external_body]
fn parse_index(text: &str) -> (parsed: Option<usize>)
    ensures
        parsed == decimal(text@),
{
    text.parse::<usize>().ok()
}

/// The broker ordinal that a live entry stands for: its decimal value, or 0
/// where the entry is no number.
pub open spec fn broker_id(child: Seq<char>) -> usize {
    match decimal(child) {
        Some(id) => id,
        None => 0,
    }
}

/// The position in a live list of `live` entries that a digest selects.
pub open spec fn slot_of(digest: u64, live: nat) -> int {
    (digest as usize) as int % (live as int)
}

/// Whether a digest selects an entry that names a configured broker.
pub open spec fn resolvable_at(digest: u64, children: Seq<Seq<char>>, addrs: Seq<Seq<char>>) -> bool {
    children.len() > 0 && broker_id(children[slot_of(digest, children.len())]) < addrs.len()
}

/// The address of the broker that a digest selects.
pub open spec fn leader_at(digest: u64, children: Seq<Seq<char>>, addrs: Seq<Seq<char>>) -> Seq<char> {
    addrs[broker_id(children[slot_of(digest, children.len())]) as int]
}

/// Whether a leader can be determined for `topic`: some broker is live, and
/// the live entry that the topic selects names a configured broker.
pub open spec fn resolvable(topic: Seq<char>, children: Seq<Seq<char>>, addrs: Seq<Seq<char>>) -> bool {
    resolvable_at(topic_hash(topic), children, addrs)
}

/// The address of the broker that owns `topic`.
pub open spec fn leader_of(topic: Seq<char>, children: Seq<Seq<char>>, addrs: Seq<Seq<char>>) -> Seq<char> {
    leader_at(topic_hash(topic), children, addrs)
}

/// The ordinal of the broker that a live entry stands for.
pub fn parse_broker_id(child: &str) -> (id: usize)
    ensures
        id == broker_id(child@),
{
    match parse_index(child) {
        Some(id) => id,
        None => 0,
    }
}

/// The position in a live list of `live` entries that `digest` selects.
pub fn select_slot(digest: u64, live: usize) -> (slot: usize)
    requires
        live > 0,
    ensures
        slot == slot_of(digest, live as nat),
        slot < live,
{
    (digest as usize) % live
}

/// The leader that `digest` selects among `children`, looked up in `addrs`;
/// `None` exactly where no broker is live or the selected entry names no
/// configured broker.
pub fn leader_for_digest(digest: u64, children: &Vec<String>, addrs: &Vec<String>) -> (leader: Option<String>)
    ensures
        leader is Some <==> resolvable_at(digest, children.deep_view(), addrs.deep_view()),
        leader matches Some(address) ==> address@ == leader_at(
            digest,
            children.deep_view(),
            addrs.deep_view(),
        ),
{
    if children.len() == 0 {
        return None;
    }
    let slot = select_slot(digest, children.len());
    let id = parse_broker_id(children[slot].as_str());
    if id < addrs.len() {
        Some(addrs[id].clone())
    } else {
        None
    }
}

/// The leader of `topic`, if one can be determined from this live list.
pub fn resolve(topic: &str, children: &Vec<String>, addrs: &Vec<String>) -> (leader: Option<String>)
    ensures
        leader is Some <==> resolvable(topic@, children.deep_view(), addrs.deep_view()),
        leader matches Some(address) ==> address@ == leader_of(
            topic@,
            children.deep_view(),
            addrs.deep_view(),
        ),
{
    leader_for_digest(hash_topic(topic), children, addrs)
}

/// The address of the broker that owns `topic`, given the live broker entries
/// and the configured broker addresses.
pub fn find_leader(topic: &str, children: &Vec<String>, addrs: &Vec<String>) -> (leader: String)
    requires
        resolvable(topic@, children.deep_view(), addrs.deep_view()),
    ensures
        leader@ == leader_of(topic@, children.deep_view(), addrs.deep_view()),
{
    resolve(topic, children, addrs).unwrap()
}

} // verus!
