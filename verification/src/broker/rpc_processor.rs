//! The operations that remote callers invoke on a node.
//!
//! Each of them changes one table of the routing state and does no routing
//! itself: a published message waits in the queue until a drain cycle takes
//! it. Opening the connection that `hook` stores is the caller's part; the
//! operation is told what came of the attempt.

use crate::broker::manager::Manager;
use crate::broker::manager::ManagerView;
use crate::broker::subscriber_map::with_subscriber;
use crate::broker::subscriber_map::without_subscriber;
use crate::result::JasmineError;
use crate::result::JasmineResult;
use crate::transaction::JasmineMessage;
use crate::transaction::MessageView;
use vstd::prelude::*;

verus! {

impl<C, B> ManagerView<C, B> {
    /// The state after `hook`: an opened connection is stored under the
    /// address, in place of any earlier one; a failed attempt changes nothing.
    pub open spec fn after_hook(self, address: Seq<char>, connection: Result<C, JasmineError>) -> Self {
        match connection {
            Ok(handle) => ManagerView { client_map: self.client_map.insert(address, handle), ..self },
            Err(_) => self,
        }
    }

    /// The state after `unhook`: the address has no connection.
    pub open spec fn after_unhook(self, address: Seq<char>) -> Self {
        ManagerView { client_map: self.client_map.remove(address), ..self }
    }

    /// The state after `publish`: the message stands at the end of the queue.
    pub open spec fn after_publish(self, topic: Seq<char>, message: Seq<char>, is_consistent: bool) -> Self {
        ManagerView {
            message_queue: self.message_queue.push(MessageView { topic, message, is_consistent }),
            ..self
        }
    }

    /// The state after `subscribe`.
    pub open spec fn after_subscribe(self, topic: Seq<char>, address: Seq<char>) -> Self {
        ManagerView { subscriber_map: with_subscriber(self.subscriber_map, topic, address), ..self }
    }

    /// The state after `unsubscribe`.
    pub open spec fn after_unsubscribe(self, topic: Seq<char>, address: Seq<char>) -> Self {
        ManagerView { subscriber_map: without_subscriber(self.subscriber_map, topic, address), ..self }
    }
}

impl<C, B> Manager<C, B> {
    /// Stores the connection that was opened to the subscriber at `address`,
    /// in place of any earlier one. Where the attempt to connect failed, the
    /// state stays as it is and the failure is handed back.
    pub fn hook(&mut self, address: String, connection: JasmineResult<C>) -> (done: JasmineResult<()>)
        requires
            old(self).wf(),
        ensures
            final(self).wf(),
            final(self)@ == old(self)@.after_hook(address@, connection),
            match connection {
                Ok(_) => done is Ok,
                Err(error) => done == Err::<(), _>(error),
            },
    {
        match connection {
            Ok(handle) => {
                self.client_map.insert(address, handle);
                Ok(())
            },
            Err(error) => Err(error),
        }
    }

    /// Drops the connection to the subscriber at `address`, if there is one.
    pub fn unhook(&mut self, address: String) -> (done: JasmineResult<()>)
        requires
            old(self).wf(),
        ensures
            done is Ok,
            final(self).wf(),
            final(self)@ == old(self)@.after_unhook(address@),
    {
        self.client_map.remove(&address);
        Ok(())
    }

    /// Queues a message for routing. Nothing is logged or sent yet.
    pub fn publish(&mut self, topic: String, message: String, is_consistent: bool) -> (done: JasmineResult<()>)
        requires
            old(self).wf(),
        ensures
            done is Ok,
            final(self).wf(),
            final(self)@ == old(self)@.after_publish(topic@, message@, is_consistent),
    {
        let ghost queued = self.message_queue.deep_view();
        let pending = JasmineMessage { topic, message, is_consistent };
        self.message_queue.push(pending);
        assert(self.message_queue.deep_view() =~= queued.push(pending@));
        Ok(())
    }

    /// Queues the copy of a consistent message that the leader of its topic
    /// pushed to this node as a backup.
    pub fn publish_backup(&mut self, topic: String, message: String) -> (done: JasmineResult<()>)
        requires
            old(self).wf(),
        ensures
            done is Ok,
            final(self).wf(),
            final(self)@ == old(self)@.after_publish(topic@, message@, true),
    {
        self.publish(topic, message, true)
    }

    /// Adds `address` to the subscribers of `topic`. Subscribing twice is
    /// subscribing once; no connection to the address is needed.
    pub fn subscribe(&mut self, topic: String, address: String) -> (done: JasmineResult<()>)
        requires
            old(self).wf(),
        ensures
            done is Ok,
            final(self).wf(),
            final(self)@ == old(self)@.after_subscribe(topic@, address@),
    {
        self.subscriber_map.subscribe(topic, address);
        Ok(())
    }

    /// Removes `address` from the subscribers of `topic`. A topic or an
    /// address that is not there is no error.
    pub fn unsubscribe(&mut self, topic: String, address: String) -> (done: JasmineResult<()>)
        requires
            old(self).wf(),
        ensures
            done is Ok,
            final(self).wf(),
            final(self)@ == old(self)@.after_unsubscribe(topic@, address@),
    {
        self.subscriber_map.unsubscribe(&topic, &address);
        Ok(())
    }

    /// Answers a liveness check. The state is not touched.
    pub fn ping(&self) -> (done: JasmineResult<()>)
        ensures
            done is Ok,
    {
        Ok(())
    }
}

} // verus!
