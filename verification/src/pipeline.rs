//! Model of the bounded pipeline channel between the consumer side and
//! the producer loop. The running worker uses an operating-system
//! channel with the same bound; this model carries the backpressure
//! argument: a sender is refused exactly when the channel already holds
//! `capacity` events, so a paused receiver stops the senders after at
//! most `capacity` accepted sends, and the consumer loop, which sends
//! one `Received` token per message before spawning its task, blocks
//! with at most `capacity + 1` messages in flight.
use vstd::prelude::*;
use crate::PendingMessage;

verus! {

/// A bounded first-in-first-out queue of pending events.
pub struct PipelineChannel {
    pub capacity: usize,
    pub items: Vec<PendingMessage>,
}

impl PipelineChannel {
    /// The channel never holds more than its capacity.
    pub open spec fn wf(self) -> bool {
        self.items@.len() <= self.capacity
    }

    /// An empty channel of the given capacity.
    pub fn new(capacity: usize) -> (r: PipelineChannel)
        ensures
            r.wf(),
            r.capacity == capacity,
            r.items@.len() == 0,
    {
        PipelineChannel { capacity, items: Vec::new() }
    }

    /// Law (backpressure): a send is accepted if and only if the channel
    /// holds fewer events than its capacity; a full channel makes the
    /// sender block.
    pub fn try_send(&mut self, m: PendingMessage) -> (accepted: bool)
        requires
            old(self).wf(),
        ensures
            final(self).wf(),
            final(self).capacity == old(self).capacity,
            accepted == (old(self).items@.len() < old(self).capacity),
            accepted ==> final(self).items@ == old(self).items@.push(m),
            !accepted ==> final(self).items@ == old(self).items@,
    {
        if self.items.len() < self.capacity {
            self.items.push(m);
            true
        } else {
            false
        }
    }

    /// Takes the oldest event, if there is one.
    pub fn try_recv(&mut self) -> (r: Option<PendingMessage>)
        requires
            old(self).wf(),
        ensures
            final(self).wf(),
            final(self).capacity == old(self).capacity,
            old(self).items@.len() == 0 ==> (r is None
                && final(self).items@ == old(self).items@),
            old(self).items@.len() > 0 ==> (r == Some(old(self).items@[0])
                && final(self).items@ == old(self).items@.drop_first()),
    {
        if self.items.len() == 0 {
            None
        } else {
            let m = self.items.remove(0);
            proof {
                assert(self.items@ =~= old(self).items@.drop_first());
            }
            Some(m)
        }
    }

    /// How many events are pending.
    pub fn len(&self) -> (r: usize)
        ensures
            r == self.items@.len(),
    {
        self.items.len()
    }
}

} // verus!
