//! The durability log: per topic, the consistent messages a node has seen.
//!
//! A topic's log only grows, at its end. An entry's sequence id is the
//! position at which it was appended, so the ids of a topic count up from 0
//! without a gap.

use crate::table::Table;
use crate::transaction::JasmineLog;
use crate::transaction::LogView;
use vstd::prelude::*;

verus! {

/// The entries logged for `topic` in `logs`, oldest first. A topic that the
/// logs do not hold has none.
pub open spec fn logged(logs: Map<Seq<char>, Seq<LogView>>, topic: Seq<char>) -> Seq<LogView> {
    if logs.contains_key(topic) {
        logs[topic]
    } else {
        Seq::empty()
    }
}

/// The entry that an append of `message` to `topic` creates: it takes the
/// next sequence id of the topic and is not ready.
pub open spec fn next_entry(logs: Map<Seq<char>, Seq<LogView>>, topic: Seq<char>, message: Seq<char>) -> LogView {
    LogView { jid: logged(logs, topic).len() as u64, content: message, is_ready: false }
}

/// The logs after `message` was appended to the log of `topic`.
pub open spec fn appended(
    logs: Map<Seq<char>, Seq<LogView>>,
    topic: Seq<char>,
    message: Seq<char>,
) -> Map<Seq<char>, Seq<LogView>> {
    logs.insert(topic, logged(logs, topic).push(next_entry(logs, topic, message)))
}

/// Every entry of every topic carries its own position as sequence id.
pub open spec fn gapless(logs: Map<Seq<char>, Seq<LogView>>) -> bool {
    forall|topic: Seq<char>, i: int|
        logs.contains_key(topic) && 0 <= i < logs[topic].len() ==> (#[trigger] logs[topic][i]).jid == i
}

/// An append gives the new entry the sequence id that follows the topic's
/// last one, and leaves every entry with its position as sequence id: the ids
/// of a topic stay 0, 1, 2 and so on, however often anything is appended.
pub proof fn lemma_append_gapless(logs: Map<Seq<char>, Seq<LogView>>, topic: Seq<char>, message: Seq<char>)
    requires
        gapless(logs),
        logged(logs, topic).len() <= u64::MAX,
    ensures
        gapless(appended(logs, topic, message)),
        logged(appended(logs, topic, message), topic).len() == logged(logs, topic).len() + 1,
        logged(appended(logs, topic, message), topic).last().jid == logged(logs, topic).len(),
        logged(appended(logs, topic, message), topic).last().content == message,
        !logged(appended(logs, topic, message), topic).last().is_ready,
        forall|i: int|
            0 <= i < logged(logs, topic).len() ==> logged(appended(logs, topic, message), topic)[i] == logged(
                logs,
                topic,
            )[i],
        forall|other: Seq<char>|
            other != topic ==> logged(appended(logs, topic, message), other) == logged(logs, other),
{
}

/// The durability logs of a node, one per topic.
pub struct LogStore {
    topics: Table<Vec<JasmineLog>>,
}

impl View for LogStore {
    type V = Map<Seq<char>, Seq<LogView>>;

    closed spec fn view(&self) -> Map<Seq<char>, Seq<LogView>> {
        self.topics@.map_values(|entries: Vec<JasmineLog>| entries.deep_view())
    }
}

impl LogStore {
    /// The table is sound and every entry carries its position as sequence id.
    pub closed spec fn wf(&self) -> bool {
        &&& self.topics.wf()
        &&& gapless(self@)
    }

    /// The sequence ids of a topic are 0, 1, 2 and so on, in log order: they
    /// start at 0, rise strictly, and leave no gap.
    pub proof fn lemma_sequence_ids(&self)
        requires
            self.wf(),
        ensures
            gapless(self@),
            forall|topic: Seq<char>, i: int, j: int|
                self@.contains_key(topic) && 0 <= i < j < self@[topic].len() ==> (#[trigger] self@[topic][i]).jid
                    < (#[trigger] self@[topic][j]).jid,
    {
    }

    /// Logs without topics.
    pub fn new() -> (logs: Self)
        ensures
            logs.wf(),
            logs@ == Map::<Seq<char>, Seq<LogView>>::empty(),
    {
        let logs = LogStore { topics: Table::new() };
        assert(logs@ =~= Map::<Seq<char>, Seq<LogView>>::empty());
        logs
    }

    /// Appends `message` to the log of `topic`, creating the log if it is not
    /// there, and returns the sequence id that the new entry got: the number
    /// of entries the topic had before.
    pub fn append(&mut self, topic: String, message: String) -> (jid: u64)
        requires
            old(self).wf(),
        ensures
            final(self).wf(),
            final(self)@ == appended(old(self)@, topic@, message@),
            jid == logged(old(self)@, topic@).len(),
    {
        let ghost before = self@;
        match self.topics.position(&topic) {
            Some(i) => {
                let entries = self.topics.value_at_mut(i);
                let ghost listed = entries.deep_view();
                assert(before.contains_key(topic@) && before[topic@] == listed);
                let jid = entries.len() as u64;
                let entry = JasmineLog { jid, content: message, is_ready: false };
                entries.push(entry);
                assert(entries.deep_view() =~= listed.push(entry@));
                assert(self@ =~= appended(before, topic@, message@));
                jid
            },
            None => {
                let mut entries: Vec<JasmineLog> = Vec::new();
                let entry = JasmineLog { jid: 0, content: message, is_ready: false };
                entries.push(entry);
                assert(entries.deep_view() =~= Seq::<LogView>::empty().push(entry@));
                self.topics.insert(topic, entries);
                assert(self@ =~= appended(before, topic@, message@));
                0
            },
        }
    }

    /// The log of `topic`, if there is one.
    pub fn get(&self, topic: &String) -> (entries: Option<&Vec<JasmineLog>>)
        requires
            self.wf(),
        ensures
            entries is Some <==> self@.contains_key(topic@),
            entries matches Some(list) ==> list.deep_view() == self@[topic@],
    {
        self.topics.get(topic)
    }

    /// The number of entries logged for `topic`.
    pub fn len_of(&self, topic: &String) -> (count: usize)
        requires
            self.wf(),
        ensures
            count == logged(self@, topic@).len(),
    {
        match self.topics.get(topic) {
            Some(list) => list.len(),
            None => 0,
        }
    }
}

} // verus!
