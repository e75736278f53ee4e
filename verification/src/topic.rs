use vstd::prelude::*;

use crate::error::Error;
use crate::message::{msgs_view, Message, MessageView};
use crate::partition::{partition_append, partition_poll, Partition, PartitionView};

verus! {

/// A named collection of partitions.  Partition ids are the contiguous range
/// `[0, partitions.len())`, so routing is a pure index lookup.
pub struct Topic {
    pub topic_id: u32,
    /// UTF-8 bytes of the topic's name.
    pub name: Vec<u8>,
    pub partitions: Vec<Partition>,
}

/// The mathematical value of a `Topic`.
#[verifier::ext_equal]
pub ghost struct TopicView {
    pub topic_id: u32,
    pub name: Seq<u8>,
    pub partitions: Seq<PartitionView>,
}

impl View for Topic {
    type V = TopicView;

    open spec fn view(&self) -> TopicView {
        TopicView {
            topic_id: self.topic_id,
            name: self.name@,
            partitions: self.partitions@.map_values(|p: Partition| p@),
        }
    }
}

impl TopicView {
    /// Well-formedness: every partition is well formed and sits at the index
    /// equal to its id, so ids are the contiguous range `[0, len)`.
    pub open spec fn wf(self) -> bool {
        &&& self.partitions.len() <= u32::MAX
        &&& forall|i: int|
            0 <= i < self.partitions.len() ==> (#[trigger] self.partitions[i]).wf()
        &&& forall|i: int|
            0 <= i < self.partitions.len() ==> (#[trigger] self.partitions[i]).partition_id == i
    }
}

/// The effect of appending `m` to partition `partition_id` of topic `t`:
/// `PartitionNotFound` exactly when the id is absent, otherwise the
/// partition-level effect applied at that id.
pub open spec fn topic_append(t: TopicView, partition_id: u32, m: MessageView) -> Result<
    (TopicView, u64),
    Error,
> {
    if partition_id >= t.partitions.len() {
        Err(Error::PartitionNotFound(partition_id))
    } else {
        match partition_append(t.partitions[partition_id as int], m) {
            Ok((pv, offset)) => Ok(
                (
                    TopicView {
                        topic_id: t.topic_id,
                        name: t.name,
                        partitions: t.partitions.update(partition_id as int, pv),
                    },
                    offset,
                ),
            ),
            Err(e) => Err(e),
        }
    }
}

/// The effect of polling partition `partition_id` of topic `t`.
pub open spec fn topic_poll(t: TopicView, partition_id: u32, offset: u64, count: u32) -> Result<
    Seq<MessageView>,
    Error,
> {
    if partition_id >= t.partitions.len() {
        Err(Error::PartitionNotFound(partition_id))
    } else {
        partition_poll(t.partitions[partition_id as int], offset, count)
    }
}

impl Topic {
    /// Well-formedness of the topic's value.
    pub open spec fn wf(self) -> bool {
        self@.wf()
    }

    /// Creates the topic with partitions `0 .. partitions_count`, each empty
    /// and bounded by `max_payload_size`.
    pub fn new(topic_id: u32, name: Vec<u8>, partitions_count: u32, max_payload_size: u32) -> (t:
        Topic)
        ensures
            t.wf(),
            t@.topic_id == topic_id,
            t@.name == name@,
            t@.partitions.len() == partitions_count,
            forall|i: int|
                0 <= i < partitions_count ==> (#[trigger] t@.partitions[i]) == (PartitionView {
                    partition_id: i as u32,
                    max_payload_size,
                    next_offset: 0,
                    messages: Seq::empty(),
                }),
    {
        let mut partitions: Vec<Partition> = Vec::new();
        let mut i: u32 = 0;
        while i < partitions_count
            invariant
                i <= partitions_count,
                partitions@.len() == i,
                forall|j: int|
                    0 <= j < i ==> (#[trigger] partitions@[j])@ == (PartitionView {
                        partition_id: j as u32,
                        max_payload_size,
                        next_offset: 0,
                        messages: Seq::empty(),
                    }),
            decreases partitions_count - i,
        {
            partitions.push(Partition::new(i, max_payload_size));
            i = i + 1;
        }
        Topic { topic_id, name, partitions }
    }

    /// Routes an append to the partition with id `partition_id`; the topic
    /// never creates partitions on this path.
    pub fn append_messages(&mut self, partition_id: u32, message: Message) -> (r: Result<
        u64,
        Error,
    >)
        requires
            old(self).wf(),
        ensures
            final(self).wf(),
            match topic_append(old(self)@, partition_id, message@) {
                Ok((tv, offset)) => r == Ok::<u64, Error>(offset) && final(self)@ == tv,
                Err(e) => r == Err::<u64, Error>(e) && final(self)@ == old(self)@,
            },
    {
        if partition_id as usize >= self.partitions.len() {
            return Err(Error::PartitionNotFound(partition_id));
        }
        let partition = &mut self.partitions[partition_id as usize];
        let r = partition.append(message);
        proof {
            assert(final(self)@.partitions =~= old(self)@.partitions.update(
                partition_id as int,
                final(partition)@,
            ));
        }
        r
    }

    /// Routes a poll to the partition with id `partition_id`.
    pub fn get_messages(&self, partition_id: u32, offset: u64, count: u32) -> (r: Result<
        Vec<Message>,
        Error,
    >)
        requires
            self.wf(),
        ensures
            match topic_poll(self@, partition_id, offset, count) {
                Ok(s) => r is Ok && msgs_view(r->Ok_0@) == s,
                Err(e) => r == Err::<Vec<Message>, Error>(e),
            },
    {
        if partition_id as usize >= self.partitions.len() {
            return Err(Error::PartitionNotFound(partition_id));
        }
        let partition = &self.partitions[partition_id as usize];
        partition.poll(offset, count)
    }
}

} // verus!
