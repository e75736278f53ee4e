use vstd::prelude::*;

use crate::error::Error;
use crate::message::{msgs_view, Message, MessageView};
use crate::stream::{
    stream_append, stream_create_topic, stream_poll, Stream, StreamView,
};

verus! {

/// The process-wide registry of streams: the single piece of state a server
/// owns.  Stream ids and stream names are unique process-wide, and every
/// stream carries the registry's configured payload bound.
pub struct System {
    /// Configured upper bound on a payload's length in bytes.
    pub max_payload_size: u32,
    pub streams: Vec<Stream>,
}

/// The mathematical value of a `System`.
#[verifier::ext_equal]
pub ghost struct SystemView {
    pub max_payload_size: u32,
    pub streams: Seq<StreamView>,
}

impl View for System {
    type V = SystemView;

    open spec fn view(&self) -> SystemView {
        SystemView {
            max_payload_size: self.max_payload_size,
            streams: self.streams@.map_values(|s: Stream| s@),
        }
    }
}

/// Index of the first stream with id `stream_id`, if any.
pub open spec fn find_stream(streams: Seq<StreamView>, stream_id: u32) -> Option<int>
    decreases streams.len(),
{
    if streams.len() == 0 {
        None
    } else if streams[0].stream_id == stream_id {
        Some(0int)
    } else {
        match find_stream(streams.drop_first(), stream_id) {
            Some(i) => Some(i + 1),
            None => None,
        }
    }
}

/// `find_stream` returns the index of the first stream carrying the id, and
/// `None` exactly when no stream carries it.
pub proof fn lemma_find_stream(streams: Seq<StreamView>, stream_id: u32)
    ensures
        match find_stream(streams, stream_id) {
            Some(i) => 0 <= i < streams.len() && streams[i].stream_id == stream_id && (forall|
                j: int,
            |
                0 <= j < i ==> (#[trigger] streams[j]).stream_id != stream_id),
            None => forall|j: int|
                0 <= j < streams.len() ==> (#[trigger] streams[j]).stream_id != stream_id,
        },
    decreases streams.len(),
{
    if streams.len() == 0 {
    } else if streams[0].stream_id == stream_id {
    } else {
        let rest = streams.drop_first();
        lemma_find_stream(rest, stream_id);
        match find_stream(rest, stream_id) {
            Some(i) => {
                assert(streams[i + 1] == rest[i]);
                assert forall|j: int| 0 <= j < i + 1 implies (#[trigger] streams[j]).stream_id
                    != stream_id by {
                    if j > 0 {
                        assert(streams[j] == rest[j - 1]);
                    }
                }
            },
            None => {
                assert forall|j: int|
                    0 <= j < streams.len() implies (#[trigger] streams[j]).stream_id
                    != stream_id by {
                    if j > 0 {
                        assert(streams[j] == rest[j - 1]);
                    }
                }
            },
        }
    }
}

impl SystemView {
    /// Well-formedness: every stream is well formed and carries the
    /// configured payload bound; stream ids and names are unique.
    pub open spec fn wf(self) -> bool {
        &&& forall|i: int| 0 <= i < self.streams.len() ==> (#[trigger] self.streams[i]).wf()
        &&& forall|i: int|
            0 <= i < self.streams.len() ==> (#[trigger] self.streams[i]).max_payload_size
                == self.max_payload_size
        &&& forall|i: int, j: int|
            0 <= i < self.streams.len() && 0 <= j < self.streams.len() && i != j
                ==> (#[trigger] self.streams[i]).stream_id != (#[trigger] self.streams[j]).stream_id
        &&& forall|i: int, j: int|
            0 <= i < self.streams.len() && 0 <= j < self.streams.len() && i != j
                ==> (#[trigger] self.streams[i]).name != (#[trigger] self.streams[j]).name
    }
}

/// The effect of `CreateStream` on registry state `s`: a duplicate stream id
/// or name is rejected, otherwise an empty stream is added.
pub open spec fn system_create_stream(s: SystemView, stream_id: u32, name: Seq<u8>) -> Result<
    SystemView,
    Error,
> {
    if find_stream(s.streams, stream_id) is Some {
        Err(Error::Unknown)
    } else if exists|i: int| 0 <= i < s.streams.len() && (#[trigger] s.streams[i]).name == name {
        Err(Error::Unknown)
    } else {
        Ok(
            SystemView {
                max_payload_size: s.max_payload_size,
                streams: s.streams.push(
                    StreamView {
                        stream_id,
                        name,
                        max_payload_size: s.max_payload_size,
                        topics: Seq::empty(),
                    },
                ),
            },
        )
    }
}

/// The effect of `CreateTopic` on registry state `s`: `StreamNotFound`
/// exactly when the stream id is absent, otherwise the stream-level effect.
pub open spec fn system_create_topic(
    s: SystemView,
    stream_id: u32,
    topic_id: u32,
    partitions_count: u32,
    name: Seq<u8>,
) -> Result<SystemView, Error> {
    match find_stream(s.streams, stream_id) {
        None => Err(Error::StreamNotFound(stream_id)),
        Some(i) => match stream_create_topic(s.streams[i], topic_id, partitions_count, name) {
            Ok(sv) => Ok(
                SystemView { max_payload_size: s.max_payload_size, streams: s.streams.update(i, sv) },
            ),
            Err(e) => Err(e),
        },
    }
}

/// The effect of `SendMessages` on registry state `s`: the nearest missing
/// level reports its own "not found", otherwise the partition appends.
pub open spec fn system_append(
    s: SystemView,
    stream_id: u32,
    topic_id: u32,
    partition_id: u32,
    m: MessageView,
) -> Result<(SystemView, u64), Error> {
    match find_stream(s.streams, stream_id) {
        None => Err(Error::StreamNotFound(stream_id)),
        Some(i) => match stream_append(s.streams[i], topic_id, partition_id, m) {
            Ok((sv, offset)) => Ok(
                (
                    SystemView {
                        max_payload_size: s.max_payload_size,
                        streams: s.streams.update(i, sv),
                    },
                    offset,
                ),
            ),
            Err(e) => Err(e),
        },
    }
}

/// The effect of `PollMessages` on registry state `s`.
pub open spec fn system_poll(
    s: SystemView,
    stream_id: u32,
    topic_id: u32,
    partition_id: u32,
    offset: u64,
    count: u32,
) -> Result<Seq<MessageView>, Error> {
    match find_stream(s.streams, stream_id) {
        None => Err(Error::StreamNotFound(stream_id)),
        Some(i) => stream_poll(s.streams[i], topic_id, partition_id, offset, count),
    }
}

impl System {
    /// Well-formedness of the registry's value.
    pub open spec fn wf(self) -> bool {
        self@.wf()
    }

    pub fn new(max_payload_size: u32) -> (s: System)
        ensures
            s.wf(),
            s@ == (SystemView { max_payload_size, streams: Seq::empty() }),
    {
        let s = System { max_payload_size, streams: Vec::new() };
        proof {
            assert(s@.streams =~= Seq::<StreamView>::empty());
        }
        s
    }

    /// Index of the first stream with id `stream_id`, if any.
    fn find_stream_index(&self, stream_id: u32) -> (r: Option<usize>)
        ensures
            match r {
                Some(i) => find_stream(self@.streams, stream_id) == Some(i as int),
                None => find_stream(self@.streams, stream_id) is None,
            },
    {
        let mut i: usize = 0;
        while i < self.streams.len()
            invariant
                i <= self.streams@.len(),
                forall|k: int| 0 <= k < i ==> (#[trigger] self@.streams[k]).stream_id != stream_id,
            decreases self.streams@.len() - i,
        {
            if self.streams[i].stream_id == stream_id {
                proof {
                    lemma_find_stream(self@.streams, stream_id);
                    assert(self@.streams[i as int].stream_id == stream_id);
                    match find_stream(self@.streams, stream_id) {
                        Some(i0) => {
                            if i0 < i as int {
                                assert(self@.streams[i0].stream_id != stream_id);
                            } else if i0 > i as int {
                                assert(self@.streams[i as int].stream_id != stream_id);
                            }
                        },
                        None => {
                            assert(self@.streams[i as int].stream_id != stream_id);
                        },
                    }
                }
                return Some(i);
            }
            i = i + 1;
        }
        proof {
            lemma_find_stream(self@.streams, stream_id);
        }
        None
    }

    /// Whether some stream already carries `name`.
    fn name_taken(&self, name: &Vec<u8>) -> (r: bool)
        ensures
            r <==> exists|i: int|
                0 <= i < self@.streams.len() && (#[trigger] self@.streams[i]).name == name@,
    {
        let mut i: usize = 0;
        while i < self.streams.len()
            invariant
                i <= self.streams@.len(),
                forall|k: int| 0 <= k < i ==> (#[trigger] self@.streams[k]).name != name@,
            decreases self.streams@.len() - i,
        {
            if crate::stream::bytes_equal(&self.streams[i].name, name) {
                proof {
                    assert(self@.streams[i as int].name == name@);
                }
                return true;
            }
            i = i + 1;
        }
        false
    }

    /// Creates an empty stream.  Rejects a duplicate stream id or name.
    pub fn create_stream(&mut self, stream_id: u32, name: Vec<u8>) -> (r: Result<(), Error>)
        requires
            old(self).wf(),
        ensures
            final(self).wf(),
            match system_create_stream(old(self)@, stream_id, name@) {
                Ok(sv) => r is Ok && final(self)@ == sv,
                Err(e) => r == Err::<(), Error>(e) && final(self)@ == old(self)@,
            },
    {
        if self.find_stream_index(stream_id).is_some() {
            return Err(Error::Unknown);
        }
        if self.name_taken(&name) {
            return Err(Error::Unknown);
        }
        let ghost namev = name@;
        let stream = Stream::new(stream_id, name, self.max_payload_size);
        let ghost sv = stream@;
        self.streams.push(stream);
        proof {
            let n = old(self)@.streams.len() as int;
            assert(self@.streams =~= old(self)@.streams.push(sv));
            lemma_find_stream(old(self)@.streams, stream_id);
            assert forall|a: int, b: int|
                0 <= a < self@.streams.len() && 0 <= b < self@.streams.len() && a
                    != b implies (#[trigger] self@.streams[a]).stream_id
                != (#[trigger] self@.streams[b]).stream_id by {
                if a == n {
                    assert(old(self)@.streams[b].stream_id != stream_id);
                } else if b == n {
                    assert(old(self)@.streams[a].stream_id != stream_id);
                }
            }
            assert forall|a: int, b: int|
                0 <= a < self@.streams.len() && 0 <= b < self@.streams.len() && a
                    != b implies (#[trigger] self@.streams[a]).name
                != (#[trigger] self@.streams[b]).name by {
                if a == n {
                    assert(old(self)@.streams[b].name != namev);
                } else if b == n {
                    assert(old(self)@.streams[a].name != namev);
                }
            }
        }
        Ok(())
    }

    /// Creates a topic under the stream with id `stream_id`.
    pub fn create_topic(
        &mut self,
        stream_id: u32,
        topic_id: u32,
        partitions_count: u32,
        name: Vec<u8>,
    ) -> (r: Result<(), Error>)
        requires
            old(self).wf(),
        ensures
            final(self).wf(),
            match system_create_topic(old(self)@, stream_id, topic_id, partitions_count, name@) {
                Ok(sv) => r is Ok && final(self)@ == sv,
                Err(e) => r == Err::<(), Error>(e) && final(self)@ == old(self)@,
            },
    {
        let found = self.find_stream_index(stream_id);
        match found {
            None => Err(Error::StreamNotFound(stream_id)),
            Some(i) => {
                proof {
                    lemma_find_stream(old(self)@.streams, stream_id);
                    assert(old(self)@.streams[i as int].wf());
                }
                let stream = &mut self.streams[i];
                let r = stream.create_topic(topic_id, partitions_count, name);
                proof {
                    assert(self@.streams =~= old(self)@.streams.update(
                        i as int,
                        final(stream)@,
                    ));
                }
                r
            },
        }
    }

    /// Routes an append to `(stream_id, topic_id, partition_id)`; each
    /// missing level fails with its own "not found".
    pub fn append_messages(
        &mut self,
        stream_id: u32,
        topic_id: u32,
        partition_id: u32,
        message: Message,
    ) -> (r: Result<(), Error>)
        requires
            old(self).wf(),
        ensures
            final(self).wf(),
            match system_append(old(self)@, stream_id, topic_id, partition_id, message@) {
                Ok((sv, offset)) => r is Ok && final(self)@ == sv,
                Err(e) => r == Err::<(), Error>(e) && final(self)@ == old(self)@,
            },
    {
        let found = self.find_stream_index(stream_id);
        match found {
            None => Err(Error::StreamNotFound(stream_id)),
            Some(i) => {
                proof {
                    lemma_find_stream(old(self)@.streams, stream_id);
                    assert(old(self)@.streams[i as int].wf());
                }
                let stream = &mut self.streams[i];
                let r = stream.append_messages(topic_id, partition_id, message);
                proof {
                    assert(self@.streams =~= old(self)@.streams.update(
                        i as int,
                        final(stream)@,
                    ));
                }
                r
            },
        }
    }

    /// Retrieves up to `count` messages of `(stream_id, topic_id,
    /// partition_id)` starting at `offset`; the registry is unchanged.
    pub fn get_messages(
        &mut self,
        stream_id: u32,
        topic_id: u32,
        partition_id: u32,
        offset: u64,
        count: u32,
    ) -> (r: Result<Vec<Message>, Error>)
        requires
            old(self).wf(),
        ensures
            final(self).wf(),
            final(self)@ == old(self)@,
            match system_poll(old(self)@, stream_id, topic_id, partition_id, offset, count) {
                Ok(s) => r is Ok && msgs_view(r->Ok_0@) == s,
                Err(e) => r == Err::<Vec<Message>, Error>(e),
            },
    {
        let found = self.find_stream_index(stream_id);
        match found {
            None => Err(Error::StreamNotFound(stream_id)),
            Some(i) => {
                proof {
                    lemma_find_stream(old(self)@.streams, stream_id);
                    assert(old(self)@.streams[i as int].wf());
                }
                let stream = &mut self.streams[i];
                let r = stream.get_messages(topic_id, partition_id, offset, count);
                proof {
                    assert(self@.streams =~= old(self)@.streams);
                }
                r
            },
        }
    }
}

} // verus!
