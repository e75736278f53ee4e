use vstd::prelude::*;

use crate::error::Error;
use crate::message::{msgs_view, Message, MessageView};

verus! {

/// Implementation cap on the length of a partition's log: an append to a
/// partition that already holds this many messages fails with
/// `PartitionFull`.
pub const MAX_PARTITION_MESSAGES: u64 = 0xFFFF_FFFF;

/// An append-only, totally ordered log of messages.  The partition owns
/// offset assignment: the next append receives offset `next_offset`.
pub struct Partition {
    pub partition_id: u32,
    /// Configured upper bound on a payload's length in bytes.
    pub max_payload_size: u32,
    /// Offset the next successful append will be assigned; always the
    /// length of `messages`.
    pub next_offset: u64,
    pub messages: Vec<Message>,
}

/// The mathematical value of a `Partition`.
#[verifier::ext_equal]
pub ghost struct PartitionView {
    pub partition_id: u32,
    pub max_payload_size: u32,
    pub next_offset: u64,
    pub messages: Seq<MessageView>,
}

impl View for Partition {
    type V = PartitionView;

    open spec fn view(&self) -> PartitionView {
        PartitionView {
            partition_id: self.partition_id,
            max_payload_size: self.max_payload_size,
            next_offset: self.next_offset,
            messages: msgs_view(self.messages@),
        }
    }
}

impl PartitionView {
    /// Well-formedness: `next_offset` is the log's length, the log is within
    /// the implementation cap, and every message sits at the index equal to
    /// its offset (offsets are gap-free and strictly increasing).
    pub open spec fn wf(self) -> bool {
        &&& self.next_offset == self.messages.len()
        &&& self.messages.len() <= MAX_PARTITION_MESSAGES
        &&& forall|i: int|
            0 <= i < self.messages.len() ==> (#[trigger] self.messages[i]).offset == i
    }
}

/// The effect of appending `m` to partition state `p`: the assigned offset
/// and the new state on success, the exact error otherwise.
pub open spec fn partition_append(p: PartitionView, m: MessageView) -> Result<
    (PartitionView, u64),
    Error,
> {
    if m.payload.len() > p.max_payload_size {
        Err(Error::PayloadTooLarge)
    } else if p.messages.len() >= MAX_PARTITION_MESSAGES {
        Err(Error::PartitionFull)
    } else {
        Ok(
            (
                PartitionView {
                    partition_id: p.partition_id,
                    max_payload_size: p.max_payload_size,
                    next_offset: (p.next_offset + 1) as u64,
                    messages: p.messages.push(Partition::appended(m, p.next_offset)),
                },
                p.next_offset,
            ),
        )
    }
}

/// The effect of polling partition state `p`: `InvalidCount` exactly when
/// `count == 0`, otherwise the clipped range of messages.
pub open spec fn partition_poll(p: PartitionView, start_offset: u64, count: u32) -> Result<
    Seq<MessageView>,
    Error,
> {
    if count == 0 {
        Err(Error::InvalidCount)
    } else {
        Ok(spec_poll(p.messages, start_offset, count))
    }
}

/// What a poll returns: the messages with offsets in
/// `[start_offset, start_offset + count)` intersected with the offsets that
/// exist, in offset order.  Empty when `start_offset` is at or past the end.
pub open spec fn spec_poll(
    messages: Seq<MessageView>,
    start_offset: u64,
    count: u32,
) -> Seq<MessageView> {
    if start_offset >= messages.len() {
        Seq::empty()
    } else if start_offset + count <= messages.len() {
        messages.subrange(start_offset as int, start_offset + count)
    } else {
        messages.subrange(start_offset as int, messages.len() as int)
    }
}

impl Partition {
    /// Well-formedness of the partition's value.
    pub open spec fn wf(self) -> bool {
        self@.wf()
    }

    pub fn new(partition_id: u32, max_payload_size: u32) -> (p: Partition)
        ensures
            p.wf(),
            p@ == (PartitionView {
                partition_id,
                max_payload_size,
                next_offset: 0,
                messages: Seq::empty(),
            }),
    {
        let p = Partition { partition_id, max_payload_size, next_offset: 0, messages: Vec::new() };
        proof {
            assert(p@.messages =~= Seq::<MessageView>::empty());
        }
        p
    }

    /// The value the log holds once `message` is appended at offset `offset`:
    /// the incoming message's id, timestamp and payload, with the assigned
    /// offset in place of whatever offset the caller put in the record.
    pub open spec fn appended(message: MessageView, offset: u64) -> MessageView {
        MessageView { id: message.id, offset, timestamp: message.timestamp, payload: message.payload }
    }

    /// Appends `message` at the next offset and returns that offset.
    /// Fails with `PayloadTooLarge` exactly when the payload exceeds the
    /// configured maximum, and with `PartitionFull` exactly when the log is
    /// at its cap; on failure the partition is unchanged.
    pub fn append(&mut self, message: Message) -> (r: Result<u64, Error>)
        requires
            old(self).wf(),
        ensures
            final(self).wf(),
            match partition_append(old(self)@, message@) {
                Ok((pv, offset)) => r == Ok::<u64, Error>(offset) && final(self)@ == pv,
                Err(e) => r == Err::<u64, Error>(e) && final(self)@ == old(self)@,
            },
    {
        if message.payload.len() as u64 > self.max_payload_size as u64 {
            return Err(Error::PayloadTooLarge);
        }
        if self.messages.len() as u64 >= MAX_PARTITION_MESSAGES {
            return Err(Error::PartitionFull);
        }
        let offset = self.next_offset;
        let stored = Message {
            id: message.id,
            offset,
            timestamp: message.timestamp,
            payload: message.payload,
        };
        let ghost old_msgs = msgs_view(self.messages@);
        let ghost stored_v = stored@;
        self.messages.push(stored);
        self.next_offset = self.next_offset + 1;
        proof {
            assert(msgs_view(self.messages@) =~= old_msgs.push(stored_v));
        }
        Ok(offset)
    }

    /// Returns up to `count` messages starting at `start_offset`, clipped to
    /// the offsets that exist.  An empty result is valid when `start_offset`
    /// is at or past `next_offset`; the only failure is `InvalidCount`, for
    /// `count == 0`.
    pub fn poll(&self, start_offset: u64, count: u32) -> (r: Result<Vec<Message>, Error>)
        requires
            self.wf(),
        ensures
            match partition_poll(self@, start_offset, count) {
                Ok(s) => r is Ok && msgs_view(r->Ok_0@) == s,
                Err(e) => r == Err::<Vec<Message>, Error>(e),
            },
    {
        if count == 0 {
            return Err(Error::InvalidCount);
        }
        let mut out: Vec<Message> = Vec::new();
        let len: usize = self.messages.len();
        if start_offset >= len as u64 {
            proof {
                assert(msgs_view(out@) =~= spec_poll(self@.messages, start_offset, count));
            }
            return Ok(out);
        }
        let start: usize = start_offset as usize;
        let end: usize = if (count as u64) <= (len as u64) - start_offset {
            start + count as usize
        } else {
            len
        };
        let mut i: usize = start;
        while i < end
            invariant
                self.wf(),
                start <= i <= end <= self.messages@.len(),
                start == start_offset,
                out@.len() == i - start,
                forall|j: int|
                    0 <= j < out@.len() ==> (#[trigger] out@[j])@ == self@.messages[start + j],
            decreases end - i,
        {
            out.push(self.messages[i].clone());
            i = i + 1;
        }
        proof {
            assert(msgs_view(out@) =~= spec_poll(self@.messages, start_offset, count));
        }
        Ok(out)
    }
}

} // verus!
