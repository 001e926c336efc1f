//! The interface of a subscriber.

use crate::result::JasmineResult;
use vstd::prelude::*;

verus! {

/// A subscriber to topics of the broker.
pub trait JasmineSubscriber {
    /// Subscribes to `topic`.
    fn subscribe(topic: String) -> JasmineResult<()>;

    /// Unsubscribes from `topic`.
    fn unsubscribe(topic: String) -> JasmineResult<()>;
}

} // verus!
