use vstd::prelude::*;

use crate::error::Error;
use crate::message::{msgs_view, Message, MessageView};
use crate::partition::PartitionView;
use crate::topic::{topic_append, topic_poll, Topic, TopicView};

verus! {

/// A named collection of topics; the top-level handle a server mutates.
/// Topic ids and topic names are unique within the stream.
pub struct Stream {
    pub stream_id: u32,
    /// UTF-8 bytes of the stream's name.
    pub name: Vec<u8>,
    /// Configured upper bound on a payload's length, handed to every
    /// partition this stream creates.
    pub max_payload_size: u32,
    pub topics: Vec<Topic>,
}

/// The mathematical value of a `Stream`.
#[verifier::ext_equal]
pub ghost struct StreamView {
    pub stream_id: u32,
    pub name: Seq<u8>,
    pub max_payload_size: u32,
    pub topics: Seq<TopicView>,
}

impl View for Stream {
    type V = StreamView;

    open spec fn view(&self) -> StreamView {
        StreamView {
            stream_id: self.stream_id,
            name: self.name@,
            max_payload_size: self.max_payload_size,
            topics: self.topics@.map_values(|t: Topic| t@),
        }
    }
}

/// Index of the first topic with id `topic_id`, if any.
pub open spec fn find_topic(topics: Seq<TopicView>, topic_id: u32) -> Option<int>
    decreases topics.len(),
{
    if topics.len() == 0 {
        None
    } else if topics[0].topic_id == topic_id {
        Some(0int)
    } else {
        match find_topic(topics.drop_first(), topic_id) {
            Some(i) => Some(i + 1),
            None => None,
        }
    }
}

/// `find_topic` returns the index of the first topic carrying the id, and
/// `None` exactly when no topic carries it.
pub proof fn lemma_find_topic(topics: Seq<TopicView>, topic_id: u32)
    ensures
        match find_topic(topics, topic_id) {
            Some(i) => 0 <= i < topics.len() && topics[i].topic_id == topic_id && (forall|j: int|
                0 <= j < i ==> (#[trigger] topics[j]).topic_id != topic_id),
            None => forall|j: int|
                0 <= j < topics.len() ==> (#[trigger] topics[j]).topic_id != topic_id,
        },
    decreases topics.len(),
{
    if topics.len() == 0 {
    } else if topics[0].topic_id == topic_id {
    } else {
        let rest = topics.drop_first();
        lemma_find_topic(rest, topic_id);
        match find_topic(rest, topic_id) {
            Some(i) => {
                assert(topics[i + 1] == rest[i]);
                assert forall|j: int| 0 <= j < i + 1 implies (#[trigger] topics[j]).topic_id
                    != topic_id by {
                    if j > 0 {
                        assert(topics[j] == rest[j - 1]);
                    }
                }
            },
            None => {
                assert forall|j: int| 0 <= j < topics.len() implies (#[trigger] topics[j]).topic_id
                    != topic_id by {
                    if j > 0 {
                        assert(topics[j] == rest[j - 1]);
                    }
                }
            },
        }
    }
}

impl StreamView {
    /// Well-formedness: every topic is well formed, and topic ids and names
    /// are unique within the stream.
    pub open spec fn wf(self) -> bool {
        &&& forall|i: int| 0 <= i < self.topics.len() ==> (#[trigger] self.topics[i]).wf()
        &&& forall|i: int, j: int|
            0 <= i < self.topics.len() && 0 <= j < self.topics.len() && i != j
                ==> (#[trigger] self.topics[i]).topic_id != (#[trigger] self.topics[j]).topic_id
        &&& forall|i: int, j: int|
            0 <= i < self.topics.len() && 0 <= j < self.topics.len() && i != j
                ==> (#[trigger] self.topics[i]).name != (#[trigger] self.topics[j]).name
    }
}

/// The topic a fresh `CreateTopic` produces: `partitions_count` empty
/// partitions with contiguous ids and the stream's payload bound.
pub open spec fn new_topic_view(
    topic_id: u32,
    name: Seq<u8>,
    partitions_count: u32,
    max_payload_size: u32,
) -> TopicView {
    TopicView {
        topic_id,
        name,
        partitions: Seq::new(
            partitions_count as nat,
            |i: int|
                PartitionView {
                    partition_id: i as u32,
                    max_payload_size,
                    next_offset: 0,
                    messages: Seq::empty(),
                },
        ),
    }
}

/// The effect of `CreateTopic` on stream state `s`: a duplicate topic id or
/// a duplicate name is rejected, otherwise the new topic is added.
pub open spec fn stream_create_topic(
    s: StreamView,
    topic_id: u32,
    partitions_count: u32,
    name: Seq<u8>,
) -> Result<StreamView, Error> {
    if find_topic(s.topics, topic_id) is Some {
        Err(Error::Unknown)
    } else if exists|i: int| 0 <= i < s.topics.len() && (#[trigger] s.topics[i]).name == name {
        Err(Error::Unknown)
    } else {
        Ok(
            StreamView {
                stream_id: s.stream_id,
                name: s.name,
                max_payload_size: s.max_payload_size,
                topics: s.topics.push(
                    new_topic_view(topic_id, name, partitions_count, s.max_payload_size),
                ),
            },
        )
    }
}

/// The effect of appending `m` to `(topic_id, partition_id)` of stream `s`:
/// `TopicNotFound` exactly when the topic id is absent, otherwise the
/// topic-level effect applied at that topic.
pub open spec fn stream_append(
    s: StreamView,
    topic_id: u32,
    partition_id: u32,
    m: MessageView,
) -> Result<(StreamView, u64), Error> {
    match find_topic(s.topics, topic_id) {
        None => Err(Error::TopicNotFound(topic_id)),
        Some(i) => match topic_append(s.topics[i], partition_id, m) {
            Ok((tv, offset)) => Ok(
                (
                    StreamView {
                        stream_id: s.stream_id,
                        name: s.name,
                        max_payload_size: s.max_payload_size,
                        topics: s.topics.update(i, tv),
                    },
                    offset,
                ),
            ),
            Err(e) => Err(e),
        },
    }
}

/// The effect of polling `(topic_id, partition_id)` of stream `s`.
pub open spec fn stream_poll(
    s: StreamView,
    topic_id: u32,
    partition_id: u32,
    offset: u64,
    count: u32,
) -> Result<Seq<MessageView>, Error> {
    match find_topic(s.topics, topic_id) {
        None => Err(Error::TopicNotFound(topic_id)),
        Some(i) => topic_poll(s.topics[i], partition_id, offset, count),
    }
}

impl Stream {
    /// Well-formedness of the stream's value.
    pub open spec fn wf(self) -> bool {
        self@.wf()
    }

    pub fn new(stream_id: u32, name: Vec<u8>, max_payload_size: u32) -> (s: Stream)
        ensures
            s.wf(),
            s@ == (StreamView {
                stream_id,
                name: name@,
                max_payload_size,
                topics: Seq::empty(),
            }),
    {
        let s = Stream { stream_id, name, max_payload_size, topics: Vec::new() };
        proof {
            assert(s@.topics =~= Seq::<TopicView>::empty());
        }
        s
    }

    /// Index of the first topic with id `topic_id`, if any.
    fn find_topic_index(&self, topic_id: u32) -> (r: Option<usize>)
        ensures
            match r {
                Some(i) => find_topic(self@.topics, topic_id) == Some(i as int),
                None => find_topic(self@.topics, topic_id) is None,
            },
    {
        let mut i: usize = 0;
        while i < self.topics.len()
            invariant
                i <= self.topics@.len(),
                forall|k: int| 0 <= k < i ==> (#[trigger] self@.topics[k]).topic_id != topic_id,
            decreases self.topics@.len() - i,
        {
            if self.topics[i].topic_id == topic_id {
                proof {
                    lemma_find_topic(self@.topics, topic_id);
                    assert(self@.topics[i as int].topic_id == topic_id);
                    match find_topic(self@.topics, topic_id) {
                        Some(i0) => {
                            if i0 < i as int {
                                assert(self@.topics[i0].topic_id != topic_id);
                            } else if i0 > i as int {
                                assert(self@.topics[i as int].topic_id != topic_id);
                            }
                        },
                        None => {
                            assert(self@.topics[i as int].topic_id != topic_id);
                        },
                    }
                }
                return Some(i);
            }
            i = i + 1;
        }
        proof {
            lemma_find_topic(self@.topics, topic_id);
        }
        None
    }

    /// Creates a topic with `partitions_count` fresh partitions.  Rejects a
    /// duplicate topic id or name.
    pub fn create_topic(&mut self, topic_id: u32, partitions_count: u32, name: Vec<u8>) -> (r:
        Result<(), Error>)
        requires
            old(self).wf(),
        ensures
            final(self).wf(),
            match stream_create_topic(old(self)@, topic_id, partitions_count, name@) {
                Ok(sv) => r is Ok && final(self)@ == sv,
                Err(e) => r == Err::<(), Error>(e) && final(self)@ == old(self)@,
            },
    {
        if self.find_topic_index(topic_id).is_some() {
            return Err(Error::Unknown);
        }
        if self.name_taken(&name) {
            return Err(Error::Unknown);
        }
        let topic = Topic::new(topic_id, name, partitions_count, self.max_payload_size);
        let ghost tv = topic@;
        proof {
            assert(tv.partitions =~= new_topic_view(
                topic_id,
                tv.name,
                partitions_count,
                self.max_payload_size,
            ).partitions);
        }
        self.topics.push(topic);
        proof {
            let n = old(self)@.topics.len() as int;
            assert(self@.topics =~= old(self)@.topics.push(tv));
            lemma_find_topic(old(self)@.topics, topic_id);
            assert forall|a: int, b: int|
                0 <= a < self@.topics.len() && 0 <= b < self@.topics.len() && a
                    != b implies (#[trigger] self@.topics[a]).topic_id
                != (#[trigger] self@.topics[b]).topic_id by {
                if a == n {
                    assert(old(self)@.topics[b].topic_id != topic_id);
                } else if b == n {
                    assert(old(self)@.topics[a].topic_id != topic_id);
                }
            }
            assert forall|a: int, b: int|
                0 <= a < self@.topics.len() && 0 <= b < self@.topics.len() && a
                    != b implies (#[trigger] self@.topics[a]).name
                != (#[trigger] self@.topics[b]).name by {
                if a == n {
                    assert(old(self)@.topics[b].name != tv.name);
                } else if b == n {
                    assert(old(self)@.topics[a].name != tv.name);
                }
            }
        }
        Ok(())
    }

    /// Whether some topic already carries `name`.
    fn name_taken(&self, name: &Vec<u8>) -> (r: bool)
        ensures
            r <==> exists|i: int|
                0 <= i < self@.topics.len() && (#[trigger] self@.topics[i]).name == name@,
    {
        let mut i: usize = 0;
        while i < self.topics.len()
            invariant
                i <= self.topics@.len(),
                forall|k: int| 0 <= k < i ==> (#[trigger] self@.topics[k]).name != name@,
            decreases self.topics@.len() - i,
        {
            if bytes_equal(&self.topics[i].name, name) {
                proof {
                    assert(self@.topics[i as int].name == name@);
                }
                return true;
            }
            i = i + 1;
        }
        false
    }

    /// Routes an append to `(topic_id, partition_id)`; pure lookup, no
    /// silent creation at any level.
    pub fn append_messages(&mut self, topic_id: u32, partition_id: u32, message: Message) -> (r:
        Result<(), Error>)
        requires
            old(self).wf(),
        ensures
            final(self).wf(),
            match stream_append(old(self)@, topic_id, partition_id, message@) {
                Ok((sv, offset)) => r is Ok && final(self)@ == sv,
                Err(e) => r == Err::<(), Error>(e) && final(self)@ == old(self)@,
            },
    {
        let found = self.find_topic_index(topic_id);
        match found {
            None => Err(Error::TopicNotFound(topic_id)),
            Some(i) => {
                proof {
                    lemma_find_topic(old(self)@.topics, topic_id);
                    assert(old(self)@.topics[i as int].wf());
                }
                let topic = &mut self.topics[i];
                let r = topic.append_messages(partition_id, message);
                proof {
                    assert(final(self)@.topics =~= old(self)@.topics.update(
                        i as int,
                        final(topic)@,
                    ));
                }
                match r {
                    Ok(_) => Ok(()),
                    Err(e) => Err(e),
                }
            },
        }
    }

    /// Retrieves up to `count` messages of `(topic_id, partition_id)`
    /// starting at `offset`; the stream is left unchanged.
    pub fn get_messages(&mut self, topic_id: u32, partition_id: u32, offset: u64, count: u32) -> (r:
        Result<Vec<Message>, Error>)
        requires
            old(self).wf(),
        ensures
            *final(self) == *old(self),
            match stream_poll(old(self)@, topic_id, partition_id, offset, count) {
                Ok(s) => r is Ok && msgs_view(r->Ok_0@) == s,
                Err(e) => r == Err::<Vec<Message>, Error>(e),
            },
    {
        let found = self.find_topic_index(topic_id);
        match found {
            None => Err(Error::TopicNotFound(topic_id)),
            Some(i) => {
                proof {
                    lemma_find_topic(old(self)@.topics, topic_id);
                    assert(old(self)@.topics[i as int].wf());
                }
                let topic = &self.topics[i];
                topic.get_messages(partition_id, offset, count)
            },
        }
    }
}

/// Byte-for-byte equality of two byte vectors.
pub fn bytes_equal(a: &Vec<u8>, b: &Vec<u8>) -> (r: bool)
    ensures
        r <==> a@ == b@,
{
    if a.len() != b.len() {
        return false;
    }
    let mut i: usize = 0;
    while i < a.len()
        invariant
            a@.len() == b@.len(),
            i <= a@.len(),
            forall|k: int| 0 <= k < i ==> a@[k] == b@[k],
        decreases a@.len() - i,
    {
        if a[i] != b[i] {
            return false;
        }
        i = i + 1;
    }
    proof {
        assert(a@ =~= b@);
    }
    true
}

} // verus!
