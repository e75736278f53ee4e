use vstd::prelude::*;

use crate::error::Error;
use crate::message::MessageView;
use crate::partition::{
    partition_append, partition_poll, spec_poll, Partition, PartitionView, MAX_PARTITION_MESSAGES,
};
use crate::stream::{find_topic, lemma_find_topic};
use crate::system::{find_stream, lemma_find_stream, system_append, system_poll, SystemView};

verus! {

/// Polling a well-formed partition from offset 0 with a count at least the
/// log's length returns the whole log in append order, every message at the
/// offset equal to its position.
pub proof fn lemma_poll_all_in_append_order(p: PartitionView, count: u32)
    requires
        p.wf(),
        count > 0,
        p.messages.len() <= count,
    ensures
        partition_poll(p, 0, count) == Ok::<Seq<MessageView>, Error>(p.messages),
        forall|i: int| 0 <= i < p.messages.len() ==> (#[trigger] p.messages[i]).offset == i,
{
    assert(spec_poll(p.messages, 0, count) =~= p.messages);
}

/// A successful append is assigned the offset equal to the number of
/// messages already in the log, and only extends the log at its end: the
/// offsets of successive appends are `0, 1, 2, …` with no gaps.  Polls
/// leave the state untouched, so interleaving them changes nothing.
pub proof fn lemma_append_assigns_next_offset(p: PartitionView, m: MessageView)
    requires
        p.wf(),
        partition_append(p, m) is Ok,
    ensures
        partition_append(p, m)->Ok_0.1 == p.messages.len(),
        partition_append(p, m)->Ok_0.0.messages == p.messages.push(
            Partition::appended(m, p.next_offset),
        ),
        partition_append(p, m)->Ok_0.0.wf(),
{
    let p2 = partition_append(p, m)->Ok_0.0;
    assert forall|i: int| 0 <= i < p2.messages.len() implies (#[trigger] p2.messages[i]).offset
        == i by {
        if i < p.messages.len() {
            assert(p2.messages[i] == p.messages[i]);
        }
    }
}

/// Polling at or past `next_offset` returns an empty sequence and is not
/// an error.
pub proof fn lemma_poll_past_end_is_empty(p: PartitionView, start_offset: u64, count: u32)
    requires
        p.wf(),
        count > 0,
        start_offset >= p.next_offset,
    ensures
        partition_poll(p, start_offset, count) == Ok::<Seq<MessageView>, Error>(Seq::empty()),
{
}

/// Polling with `count == 0` fails with `InvalidCount`, whatever the state
/// and the offset.
pub proof fn lemma_poll_zero_count_invalid(p: PartitionView, start_offset: u64)
    ensures
        partition_poll(p, start_offset, 0) == Err::<Seq<MessageView>, Error>(Error::InvalidCount),
{
}

/// An append to a missing level fails with the nearest-level "not found":
/// a missing stream with `StreamNotFound`, a missing topic under an
/// existing stream with `TopicNotFound`, a missing partition under an
/// existing topic with `PartitionNotFound`.
pub proof fn lemma_append_nearest_not_found(
    s: SystemView,
    stream_id: u32,
    topic_id: u32,
    partition_id: u32,
    m: MessageView,
)
    ensures
        match find_stream(s.streams, stream_id) {
            None => system_append(s, stream_id, topic_id, partition_id, m) == Err::<
                (SystemView, u64),
                Error,
            >(Error::StreamNotFound(stream_id)),
            Some(i) => match find_topic(s.streams[i].topics, topic_id) {
                None => system_append(s, stream_id, topic_id, partition_id, m) == Err::<
                    (SystemView, u64),
                    Error,
                >(Error::TopicNotFound(topic_id)),
                Some(j) => partition_id >= s.streams[i].topics[j].partitions.len()
                    ==> system_append(s, stream_id, topic_id, partition_id, m) == Err::<
                    (SystemView, u64),
                    Error,
                >(Error::PartitionNotFound(partition_id)),
            },
        },
{
}

/// Round trip through the log: a message appended and then polled at its
/// assigned offset comes back with the same id, payload and timestamp.
pub proof fn lemma_append_then_poll(p: PartitionView, m: MessageView)
    requires
        p.wf(),
        partition_append(p, m) is Ok,
    ensures
        ({
            let (p2, offset) = partition_append(p, m)->Ok_0;
            let stored = Partition::appended(m, offset);
            &&& partition_poll(p2, offset, 1) == Ok::<Seq<MessageView>, Error>(seq![stored])
            &&& stored.id == m.id
            &&& stored.payload == m.payload
            &&& stored.timestamp == m.timestamp
        }),
{
    let (p2, offset) = partition_append(p, m)->Ok_0;
    let stored = Partition::appended(m, offset);
    assert(p2.messages[offset as int] == stored);
    assert(spec_poll(p2.messages, offset, 1) =~= seq![stored]);
}

/// A payload at the configured maximum is admitted (when the log is not at
/// its cap); one byte over the maximum is rejected with `PayloadTooLarge`,
/// which never changes the partition: `Partition::append` guarantees the
/// state is exactly the old one on every error.
pub proof fn lemma_append_payload_bounds(p: PartitionView, m: MessageView)
    requires
        p.wf(),
    ensures
        (m.payload.len() <= p.max_payload_size && p.messages.len() < MAX_PARTITION_MESSAGES)
            <==> partition_append(p, m) is Ok,
        m.payload.len() > p.max_payload_size ==> partition_append(p, m) == Err::<
            (PartitionView, u64),
            Error,
        >(Error::PayloadTooLarge),
{
}

/// A poll that starts after an append completed observes that append: on
/// the state the append produced, polling the same `(stream, topic,
/// partition)` from the assigned offset returns the appended message first.
pub proof fn lemma_later_poll_observes_append(
    s: SystemView,
    stream_id: u32,
    topic_id: u32,
    partition_id: u32,
    m: MessageView,
    count: u32,
)
    requires
        s.wf(),
        count > 0,
        system_append(s, stream_id, topic_id, partition_id, m) is Ok,
    ensures
        ({
            let (s2, offset) = system_append(s, stream_id, topic_id, partition_id, m)->Ok_0;
            let polled = system_poll(s2, stream_id, topic_id, partition_id, offset, count);
            &&& polled is Ok
            &&& polled->Ok_0.len() >= 1
            &&& polled->Ok_0[0] == Partition::appended(m, offset)
        }),
{
    let (s2, offset) = system_append(s, stream_id, topic_id, partition_id, m)->Ok_0;
    lemma_find_stream(s.streams, stream_id);
    match find_stream(s.streams, stream_id) {
        None => {},
        Some(i) => {
            let sv = s.streams[i];
            assert(sv.wf());
            lemma_find_topic(sv.topics, topic_id);
            match find_topic(sv.topics, topic_id) {
                None => {},
                Some(j) => {
                    let tv = sv.topics[j];
                    assert(tv.wf());
                    let pv = tv.partitions[partition_id as int];
                    assert(partition_id < tv.partitions.len());
                    assert(pv.wf());
                    let sv2 = s2.streams[i];
                    let tv2 = sv2.topics[j];
                    let pv2 = tv2.partitions[partition_id as int];
                    // the id-preserving updates leave both lookups in place
                    lemma_find_stream(s2.streams, stream_id);
                    match find_stream(s2.streams, stream_id) {
                        None => {
                            assert(s2.streams[i].stream_id == stream_id);
                            assert(false);
                        },
                        Some(i2) => {
                            if i2 != i {
                                assert(s2.streams[i2] == s.streams[i2]);
                                assert(s.streams[i2].stream_id == stream_id);
                                assert(false);
                            }
                        },
                    }
                    lemma_find_topic(sv2.topics, topic_id);
                    match find_topic(sv2.topics, topic_id) {
                        None => {
                            assert(sv2.topics[j].topic_id == topic_id);
                            assert(false);
                        },
                        Some(j2) => {
                            if j2 != j {
                                assert(sv2.topics[j2] == sv.topics[j2]);
                                assert(sv.topics[j2].topic_id == topic_id);
                                assert(false);
                            }
                        },
                    }
                    assert(offset == pv.messages.len());
                    assert(pv2.messages == pv.messages.push(Partition::appended(m, offset)));
                    assert(spec_poll(pv2.messages, offset, count)[0] == pv2.messages[
                        offset as int
                    ]);
                },
            }
        },
    }
}

/// A poll spanning `next_offset` returns the prefix that exists, with no
/// error.
pub proof fn lemma_poll_spanning_end_returns_prefix(
    p: PartitionView,
    start_offset: u64,
    count: u32,
)
    requires
        p.wf(),
        count > 0,
        start_offset < p.messages.len(),
        start_offset + count > p.messages.len(),
    ensures
        partition_poll(p, start_offset, count) == Ok::<Seq<MessageView>, Error>(
            p.messages.subrange(start_offset as int, p.messages.len() as int),
        ),
{
}

} // verus!
