//! The records that travel through a broker: pending messages, log entries
//! and the messages a node asks to have sent.

use vstd::prelude::*;

verus! {

/// The mathematical model of a message.
pub struct MessageView {
    pub topic: Seq<char>,
    pub message: Seq<char>,
    pub is_consistent: bool,
}

/// A published message: its topic, its payload, and whether it asks for
/// durable, leader-ordered delivery.
#[derive(Debug)]
pub struct JasmineMessage {
    pub topic: String,
    pub message: String,
    pub is_consistent: bool,
}

impl View for JasmineMessage {
    type V = MessageView;

    open spec fn view(&self) -> MessageView {
        MessageView { topic: self.topic@, message: self.message@, is_consistent: self.is_consistent }
    }
}

impl DeepView for JasmineMessage {
    type V = MessageView;

    open spec fn deep_view(&self) -> MessageView {
        self@
    }
}

impl Clone for JasmineMessage {
    fn clone(&self) -> (copy: Self)
        ensures
            copy@ == self@,
    {
        JasmineMessage {
            topic: self.topic.clone(),
            message: self.message.clone(),
            is_consistent: self.is_consistent,
        }
    }
}

/// The mathematical model of a log entry.
pub struct LogView {
    pub jid: u64,
    pub content: Seq<char>,
    pub is_ready: bool,
}

/// One entry of a topic's durability log.
#[derive(Debug)]
pub struct JasmineLog {
    /// The position of the entry in its topic's log, counted from 0.
    pub jid: u64,
    /// The payload of the message.
    pub content: String,
    /// Whether the entry has been committed. Entries start out not ready.
    pub is_ready: bool,
}

impl View for JasmineLog {
    type V = LogView;

    open spec fn view(&self) -> LogView {
        LogView { jid: self.jid, content: self.content@, is_ready: self.is_ready }
    }
}

impl DeepView for JasmineLog {
    type V = LogView;

    open spec fn deep_view(&self) -> LogView {
        self@
    }
}

impl Clone for JasmineLog {
    fn clone(&self) -> (copy: Self)
        ensures
            copy@ == self@,
    {
        JasmineLog { jid: self.jid, content: self.content.clone(), is_ready: self.is_ready }
    }
}

/// The mathematical model of a message to send.
pub struct OutboundView {
    pub address: Seq<char>,
    pub message: MessageView,
}

/// A message that a node asks to have sent to the party at `address`.
#[derive(Debug)]
pub struct Outbound {
    pub address: String,
    pub message: JasmineMessage,
}

impl View for Outbound {
    type V = OutboundView;

    open spec fn view(&self) -> OutboundView {
        OutboundView { address: self.address@, message: self.message@ }
    }
}

impl DeepView for Outbound {
    type V = OutboundView;

    open spec fn deep_view(&self) -> OutboundView {
        self@
    }
}

/// The messages to send to each of `addresses`, in their order.
pub open spec fn addressed(addresses: Seq<Seq<char>>, message: MessageView) -> Seq<OutboundView> {
    addresses.map_values(|address: Seq<char>| OutboundView { address, message })
}

} // verus!
