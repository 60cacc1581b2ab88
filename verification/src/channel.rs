//! Receiver-side discipline of the channel layer. A channel is a logical
//! message stream with a fixed delivery guarantee and a sequence space
//! independent from every other channel:
//!
//! - an ordered-reliable channel delivers every message, in send order;
//! - an unreliable sequenced channel delivers a message only if it is
//!   newer than everything delivered before it (stale and duplicate
//!   arrivals are dropped).

use vstd::prelude::*;

verus! {

/// The delivery guarantee a channel was created with.
#[derive(Clone, Copy, PartialEq, Eq, Structural, Debug)]
pub enum ChannelMode {
    OrderedReliable,
    Sequenced,
}

/// Receiver of an unreliable sequenced channel: accepts a message only
/// if its sequence number is newer than the newest accepted so far.
pub struct SequencedReceiver {
    /// The newest accepted sequence number, if any was accepted yet.
    pub latest: Option<u64>,
}

impl SequencedReceiver {
    pub fn new() -> (r: SequencedReceiver)
        ensures
            r.latest == Option::<u64>::None,
    {
        SequencedReceiver { latest: None }
    }

    /// Whether a message with sequence number `seq` is delivered.
    /// Duplicates and reordered stale messages are dropped, so delivered
    /// sequence numbers are strictly increasing.
    pub fn accept(&mut self, seq: u64) -> (delivered: bool)
        ensures
            delivered <==> match old(self).latest {
                Some(l) => seq > l,
                None => true,
            },
            delivered ==> final(self).latest == Some(seq),
            !delivered ==> *final(self) == *old(self),
    {
        match self.latest {
            Some(l) => {
                if seq > l {
                    self.latest = Some(seq);
                    true
                } else {
                    false
                }
            },
            None => {
                self.latest = Some(seq);
                true
            },
        }
    }
}

/// Receiver of an ordered-reliable channel: buffers out-of-order
/// arrivals and hands messages out strictly in send order.
pub struct ReliableReceiver<M> {
    /// The sequence number the next delivered message must carry.
    pub next_seq: u64,
    /// Arrived but not yet deliverable messages.
    pub pending: Vec<(u64, M)>,
}

impl<M> ReliableReceiver<M> {
    /// All buffered messages are still awaited and no sequence number is
    /// buffered twice.
    pub open spec fn wf(self) -> bool {
        &&& forall|i: int| 0 <= i < self.pending@.len() ==> #[trigger] self.pending@[i].0
            >= self.next_seq
        &&& forall|i: int, j: int|
            0 <= i < j < self.pending@.len() ==> self.pending@[i].0 != self.pending@[j].0
    }

    pub open spec fn has_pending(self, seq: u64) -> bool {
        exists|i: int| 0 <= i < self.pending@.len() && #[trigger] self.pending@[i].0 == seq
    }

    pub fn new() -> (r: ReliableReceiver<M>)
        ensures
            r.wf(),
            r.next_seq == 0,
            r.pending@.len() == 0,
    {
        ReliableReceiver { next_seq: 0, pending: Vec::new() }
    }

    /// Buffer an arrival. A message older than the delivery cursor or
    /// already buffered is a duplicate and is dropped.
    pub fn on_receive(&mut self, seq: u64, msg: M) -> (kept: bool)
        requires
            old(self).wf(),
        ensures
            final(self).wf(),
            kept <==> (seq >= old(self).next_seq && !old(self).has_pending(seq)),
            kept ==> final(self).pending@ == old(self).pending@.push((seq, msg)),
            !kept ==> *final(self) == *old(self),
            final(self).next_seq == old(self).next_seq,
    {
        if seq < self.next_seq {
            return false;
        }
        let mut i: usize = 0;
        while i < self.pending.len()
            invariant
                *self == *old(self),
                old(self).wf(),
                seq >= self.next_seq,
                0 <= i <= self.pending@.len(),
                forall|j: int| 0 <= j < i ==> #[trigger] self.pending@[j].0 != seq,
            decreases self.pending@.len() - i,
        {
            if self.pending[i].0 == seq {
                return false;
            }
            i = i + 1;
        }
        let ghost p = self.pending@;
        self.pending.push((seq, msg));
        proof {
            assert forall|a: int, b: int|
                0 <= a < b < self.pending@.len() implies self.pending@[a].0
                != self.pending@[b].0 by {
                if b < p.len() {
                    assert(self.pending@[a] == p[a] && self.pending@[b] == p[b]);
                } else {
                    assert(self.pending@[a] == p[a] && self.pending@[b].0 == seq);
                }
            }
        }
        true
    }

    /// Deliver the message the cursor waits for, if it has arrived.
    /// Messages are handed out with consecutive sequence numbers, hence
    /// in send order.
    pub fn pop_ready(&mut self) -> (r: Option<M>)
        requires
            old(self).wf(),
            old(self).next_seq < u64::MAX,
        ensures
            final(self).wf(),
            match r {
                Some(m) => {
                    &&& old(self).has_pending(old(self).next_seq)
                    &&& exists|i: int|
                        0 <= i < old(self).pending@.len() && old(self).pending@[i] == (
                        old(self).next_seq,
                        m,
                    ) && final(self).pending@ == old(self).pending@.remove(i)
                    &&& final(self).next_seq == old(self).next_seq + 1
                },
                None => {
                    &&& !old(self).has_pending(old(self).next_seq)
                    &&& *final(self) == *old(self)
                },
            },
    {
        let mut i: usize = 0;
        while i < self.pending.len()
            invariant
                *self == *old(self),
                old(self).wf(),
                old(self).next_seq < u64::MAX,
                0 <= i <= self.pending@.len(),
                forall|j: int| 0 <= j < i ==> #[trigger] self.pending@[j].0 != self.next_seq,
            decreases self.pending@.len() - i,
        {
            if self.pending[i].0 == self.next_seq {
                let ghost p = self.pending@;
                let ghost ii = i as int;
                let (_, m) = self.pending.remove(i);
                self.next_seq = self.next_seq + 1;
                proof {
                    assert forall|j: int|
                        0 <= j < self.pending@.len() implies #[trigger] self.pending@[j].0
                        >= self.next_seq by {
                        if j < ii {
                            assert(self.pending@[j] == p[j]);
                            assert(p[j].0 != p[ii].0);
                        } else {
                            assert(self.pending@[j] == p[j + 1]);
                            assert(p[j + 1].0 != p[ii].0);
                        }
                    }
                    assert forall|a: int, b: int|
                        0 <= a < b < self.pending@.len() implies self.pending@[a].0
                        != self.pending@[b].0 by {
                        assert(self.pending@[a] == if a < ii {
                            p[a]
                        } else {
                            p[a + 1]
                        });
                        assert(self.pending@[b] == if b < ii {
                            p[b]
                        } else {
                            p[b + 1]
                        });
                    }
                }
                return Some(m);
            }
            i = i + 1;
        }
        None
    }
}

} // verus!
