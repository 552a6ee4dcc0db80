use vstd::prelude::*;

verus! {

/// What became of one attempt to publish a reading to the consumer.
pub enum Publish {
    /// The reading was queued.
    Sent,
    /// The queue was at capacity; the reading was dropped.
    Full,
    /// The consumer has gone away.
    Disconnected,
}

/// Whether the sampler keeps polling after a publish attempt: a full queue
/// only drops the newest reading, while a vanished consumer ends the loop.
pub fn keep_sampling(outcome: &Publish) -> (r: bool)
    ensures
        r == !(*outcome is Disconnected),
{
    match outcome {
        Publish::Disconnected => false,
        _ => true,
    }
}

} // verus!
