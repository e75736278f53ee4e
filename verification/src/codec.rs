use vstd::bytes::{
    spec_u128_from_le_bytes, spec_u128_to_le_bytes, spec_u32_from_le_bytes, spec_u32_to_le_bytes,
    spec_u64_from_le_bytes, spec_u64_to_le_bytes, u128_from_le_bytes, u128_to_le_bytes,
    u32_from_le_bytes, u32_to_le_bytes, u64_from_le_bytes, u64_to_le_bytes,
    lemma_auto_spec_u128_to_from_le_bytes, lemma_auto_spec_u32_to_from_le_bytes,
    lemma_auto_spec_u64_to_from_le_bytes,
};
use vstd::prelude::*;
use vstd::slice::{slice_subrange, slice_to_vec};

use crate::error::Error;
use crate::message::{msgs_view, Message, MessageView};

verus! {

/// Maximum size of an encoded command in bytes; larger commands are
/// rejected with `PayloadTooLarge`.
pub const MAX_COMMAND_SIZE: u64 = 16 * 1024 * 1024;

pub const OPCODE_CREATE_STREAM: u8 = 1;

pub const OPCODE_CREATE_TOPIC: u8 = 2;

pub const OPCODE_SEND_MESSAGES: u8 = 3;

pub const OPCODE_POLL_MESSAGES: u8 = 4;

/// Fixed part of an encoded `SendMessages`: opcode, three u32 ids, a u128
/// message id and the u32 payload length.
pub const SEND_MESSAGES_HEADER_SIZE: u64 = 33;

/// The four core commands of the wire protocol.  Names travel as their
/// UTF-8 bytes behind a one-byte length; payloads behind a u32 length.
pub enum Command {
    CreateStream { stream_id: u32, name: Vec<u8> },
    CreateTopic { stream_id: u32, topic_id: u32, partitions_count: u32, name: Vec<u8> },
    SendMessages {
        stream_id: u32,
        topic_id: u32,
        partition_id: u32,
        message_id: u128,
        payload: Vec<u8>,
    },
    PollMessages { stream_id: u32, topic_id: u32, partition_id: u32, offset: u64, count: u32 },
}

/// The mathematical value of a `Command`.
#[verifier::ext_equal]
pub ghost enum CommandView {
    CreateStream { stream_id: u32, name: Seq<u8> },
    CreateTopic { stream_id: u32, topic_id: u32, partitions_count: u32, name: Seq<u8> },
    SendMessages {
        stream_id: u32,
        topic_id: u32,
        partition_id: u32,
        message_id: u128,
        payload: Seq<u8>,
    },
    PollMessages { stream_id: u32, topic_id: u32, partition_id: u32, offset: u64, count: u32 },
}

impl View for Command {
    type V = CommandView;

    open spec fn view(&self) -> CommandView {
        match self {
            Command::CreateStream { stream_id, name } => CommandView::CreateStream {
                stream_id: *stream_id,
                name: name@,
            },
            Command::CreateTopic { stream_id, topic_id, partitions_count, name } => {
                CommandView::CreateTopic {
                    stream_id: *stream_id,
                    topic_id: *topic_id,
                    partitions_count: *partitions_count,
                    name: name@,
                }
            },
            Command::SendMessages { stream_id, topic_id, partition_id, message_id, payload } => {
                CommandView::SendMessages {
                    stream_id: *stream_id,
                    topic_id: *topic_id,
                    partition_id: *partition_id,
                    message_id: *message_id,
                    payload: payload@,
                }
            },
            Command::PollMessages { stream_id, topic_id, partition_id, offset, count } => {
                CommandView::PollMessages {
                    stream_id: *stream_id,
                    topic_id: *topic_id,
                    partition_id: *partition_id,
                    offset: *offset,
                    count: *count,
                }
            },
        }
    }
}

/// Whether the wire format can carry the command: a name fits its one-byte
/// length, and an encoded `SendMessages` stays within the command bound.
pub open spec fn valid_command(c: CommandView) -> bool {
    match c {
        CommandView::CreateStream { name, .. } => name.len() <= 255,
        CommandView::CreateTopic { name, .. } => name.len() <= 255,
        CommandView::SendMessages { payload, .. } => payload.len() + SEND_MESSAGES_HEADER_SIZE
            <= MAX_COMMAND_SIZE,
        CommandView::PollMessages { .. } => true,
    }
}

/// The bytes that encode `c`: a one-byte opcode, then the command's body
/// with all multi-byte integers little-endian.
pub open spec fn spec_encode(c: CommandView) -> Seq<u8> {
    match c {
        CommandView::CreateStream { stream_id, name } => seq![OPCODE_CREATE_STREAM]
            + spec_u32_to_le_bytes(stream_id) + seq![name.len() as u8] + name,
        CommandView::CreateTopic { stream_id, topic_id, partitions_count, name } => seq![
            OPCODE_CREATE_TOPIC,
        ] + spec_u32_to_le_bytes(stream_id) + spec_u32_to_le_bytes(topic_id)
            + spec_u32_to_le_bytes(partitions_count) + seq![name.len() as u8] + name,
        CommandView::SendMessages { stream_id, topic_id, partition_id, message_id, payload } => seq![
            OPCODE_SEND_MESSAGES,
        ] + spec_u32_to_le_bytes(stream_id) + spec_u32_to_le_bytes(topic_id)
            + spec_u32_to_le_bytes(partition_id) + spec_u128_to_le_bytes(message_id)
            + spec_u32_to_le_bytes(payload.len() as u32) + payload,
        CommandView::PollMessages { stream_id, topic_id, partition_id, offset, count } => seq![
            OPCODE_POLL_MESSAGES,
        ] + spec_u32_to_le_bytes(stream_id) + spec_u32_to_le_bytes(topic_id)
            + spec_u32_to_le_bytes(partition_id) + spec_u64_to_le_bytes(offset)
            + spec_u32_to_le_bytes(count),
    }
}

/// The command `s` encodes, or `None` when `s` is malformed: wrong opcode,
/// a body shorter than its fixed part, or a length field that does not
/// match the bytes present.
pub open spec fn spec_decode(s: Seq<u8>) -> Option<CommandView> {
    if s.len() < 1 {
        None
    } else if s[0] == OPCODE_CREATE_STREAM {
        if s.len() < 6 {
            None
        } else {
            let name_len = s[5] as int;
            if s.len() == 6 + name_len {
                Some(
                    CommandView::CreateStream {
                        stream_id: spec_u32_from_le_bytes(s.subrange(1, 5)),
                        name: s.subrange(6, 6 + name_len),
                    },
                )
            } else {
                None
            }
        }
    } else if s[0] == OPCODE_CREATE_TOPIC {
        if s.len() < 14 {
            None
        } else {
            let name_len = s[13] as int;
            if s.len() == 14 + name_len {
                Some(
                    CommandView::CreateTopic {
                        stream_id: spec_u32_from_le_bytes(s.subrange(1, 5)),
                        topic_id: spec_u32_from_le_bytes(s.subrange(5, 9)),
                        partitions_count: spec_u32_from_le_bytes(s.subrange(9, 13)),
                        name: s.subrange(14, 14 + name_len),
                    },
                )
            } else {
                None
            }
        }
    } else if s[0] == OPCODE_SEND_MESSAGES {
        if s.len() < SEND_MESSAGES_HEADER_SIZE {
            None
        } else {
            let payload_len = spec_u32_from_le_bytes(s.subrange(29, 33)) as int;
            if s.len() == SEND_MESSAGES_HEADER_SIZE + payload_len {
                Some(
                    CommandView::SendMessages {
                        stream_id: spec_u32_from_le_bytes(s.subrange(1, 5)),
                        topic_id: spec_u32_from_le_bytes(s.subrange(5, 9)),
                        partition_id: spec_u32_from_le_bytes(s.subrange(9, 13)),
                        message_id: spec_u128_from_le_bytes(s.subrange(13, 29)),
                        payload: s.subrange(33, 33 + payload_len),
                    },
                )
            } else {
                None
            }
        }
    } else if s[0] == OPCODE_POLL_MESSAGES {
        if s.len() == 25 {
            Some(
                CommandView::PollMessages {
                    stream_id: spec_u32_from_le_bytes(s.subrange(1, 5)),
                    topic_id: spec_u32_from_le_bytes(s.subrange(5, 9)),
                    partition_id: spec_u32_from_le_bytes(s.subrange(9, 13)),
                    offset: spec_u64_from_le_bytes(s.subrange(13, 21)),
                    count: spec_u32_from_le_bytes(s.subrange(21, 25)),
                },
            )
        } else {
            None
        }
    } else {
        None
    }
}

/// Round trip: decoding an encoded command yields the command back,
/// for every command the wire format can carry.
pub proof fn lemma_command_round_trip(c: CommandView)
    requires
        valid_command(c),
    ensures
        spec_decode(spec_encode(c)) == Some(c),
{
    lemma_auto_spec_u32_to_from_le_bytes();
    lemma_auto_spec_u64_to_from_le_bytes();
    lemma_auto_spec_u128_to_from_le_bytes();
    let e = spec_encode(c);
    match c {
        CommandView::CreateStream { stream_id, name } => {
            assert(e.len() == 6 + name.len());
            assert(e.subrange(1, 5) =~= spec_u32_to_le_bytes(stream_id));
            assert(e[5] == name.len() as u8);
            assert(e.subrange(6, 6 + name.len() as int) =~= name);
        },
        CommandView::CreateTopic { stream_id, topic_id, partitions_count, name } => {
            assert(e.len() == 14 + name.len());
            assert(e.subrange(1, 5) =~= spec_u32_to_le_bytes(stream_id));
            assert(e.subrange(5, 9) =~= spec_u32_to_le_bytes(topic_id));
            assert(e.subrange(9, 13) =~= spec_u32_to_le_bytes(partitions_count));
            assert(e[13] == name.len() as u8);
            assert(e.subrange(14, 14 + name.len() as int) =~= name);
        },
        CommandView::SendMessages { stream_id, topic_id, partition_id, message_id, payload } => {
            assert(e.len() == 33 + payload.len());
            assert(e.subrange(1, 5) =~= spec_u32_to_le_bytes(stream_id));
            assert(e.subrange(5, 9) =~= spec_u32_to_le_bytes(topic_id));
            assert(e.subrange(9, 13) =~= spec_u32_to_le_bytes(partition_id));
            assert(e.subrange(13, 29) =~= spec_u128_to_le_bytes(message_id));
            assert(e.subrange(29, 33) =~= spec_u32_to_le_bytes(payload.len() as u32));
            assert(e.subrange(33, 33 + payload.len() as int) =~= payload);
        },
        CommandView::PollMessages { stream_id, topic_id, partition_id, offset, count } => {
            assert(e.len() == 25);
            assert(e.subrange(1, 5) =~= spec_u32_to_le_bytes(stream_id));
            assert(e.subrange(5, 9) =~= spec_u32_to_le_bytes(topic_id));
            assert(e.subrange(9, 13) =~= spec_u32_to_le_bytes(partition_id));
            assert(e.subrange(13, 21) =~= spec_u64_to_le_bytes(offset));
            assert(e.subrange(21, 25) =~= spec_u32_to_le_bytes(count));
        },
    }
}

/// The converse direction: the decoder accepts only canonical encodings.
/// Any buffer within the command bound that decodes at all is exactly the
/// encoding of the command it yields, and that command is encodable.
pub proof fn lemma_decode_accepts_only_encodings(s: Seq<u8>)
    requires
        s.len() <= MAX_COMMAND_SIZE,
    ensures
        match spec_decode(s) {
            Some(c) => valid_command(c) && spec_encode(c) == s,
            None => true,
        },
{
    lemma_auto_spec_u32_to_from_le_bytes();
    lemma_auto_spec_u64_to_from_le_bytes();
    lemma_auto_spec_u128_to_from_le_bytes();
    match spec_decode(s) {
        None => {},
        Some(c) => {
            match c {
                CommandView::CreateStream { stream_id, name } => {
                    assert(name.len() == s[5]);
                    assert(spec_encode(c) =~= s);
                },
                CommandView::CreateTopic { stream_id, topic_id, partitions_count, name } => {
                    assert(name.len() == s[13]);
                    assert(spec_encode(c) =~= s);
                },
                CommandView::SendMessages {
                    stream_id,
                    topic_id,
                    partition_id,
                    message_id,
                    payload,
                } => {
                    assert(payload.len() == spec_u32_from_le_bytes(s.subrange(29, 33)));
                    assert(spec_u32_to_le_bytes(payload.len() as u32) == s.subrange(29, 33));
                    assert(spec_encode(c) =~= s);
                },
                CommandView::PollMessages { .. } => {
                    assert(spec_encode(c) =~= s);
                },
            }
        },
    }
}

/// Whether the wire format can carry `c`; `encode` demands this.
pub fn can_encode(c: &Command) -> (r: bool)
    ensures
        r == valid_command(c@),
{
    match c {
        Command::CreateStream { name, .. } => name.len() <= 255,
        Command::CreateTopic { name, .. } => name.len() <= 255,
        Command::SendMessages { payload, .. } => payload.len() as u64 <= MAX_COMMAND_SIZE
            - SEND_MESSAGES_HEADER_SIZE,
        Command::PollMessages { .. } => true,
    }
}

/// Appends `src` to `dst`, leaving `src` in place.
pub(crate) fn push_bytes(dst: &mut Vec<u8>, src: &Vec<u8>)
    ensures
        final(dst)@ == old(dst)@ + src@,
{
    let mut i: usize = 0;
    while i < src.len()
        invariant
            i <= src@.len(),
            dst@ == old(dst)@ + src@.subrange(0, i as int),
        decreases src@.len() - i,
    {
        proof {
            assert(old(dst)@ + src@.subrange(0, i + 1) =~= (old(dst)@ + src@.subrange(0, i as int)).push(
                src@[i as int],
            ));
        }
        dst.push(src[i]);
        i = i + 1;
    }
    proof {
        assert(old(dst)@ + src@.subrange(0, src@.len() as int) =~= old(dst)@ + src@);
    }
}

/// Encodes `c` for the wire.
pub fn encode(c: &Command) -> (r: Vec<u8>)
    requires
        valid_command(c@),
    ensures
        r@ == spec_encode(c@),
{
    let mut out: Vec<u8> = Vec::new();
    match c {
        Command::CreateStream { stream_id, name } => {
            out.push(OPCODE_CREATE_STREAM);
            let mut field = u32_to_le_bytes(*stream_id);
            out.append(&mut field);
            out.push(name.len() as u8);
            push_bytes(&mut out, name);
            proof {
                assert(out@ =~= spec_encode(c@));
            }
        },
        Command::CreateTopic { stream_id, topic_id, partitions_count, name } => {
            out.push(OPCODE_CREATE_TOPIC);
            let mut field = u32_to_le_bytes(*stream_id);
            out.append(&mut field);
            let mut field = u32_to_le_bytes(*topic_id);
            out.append(&mut field);
            let mut field = u32_to_le_bytes(*partitions_count);
            out.append(&mut field);
            out.push(name.len() as u8);
            push_bytes(&mut out, name);
            proof {
                assert(out@ =~= spec_encode(c@));
            }
        },
        Command::SendMessages { stream_id, topic_id, partition_id, message_id, payload } => {
            out.push(OPCODE_SEND_MESSAGES);
            let mut field = u32_to_le_bytes(*stream_id);
            out.append(&mut field);
            let mut field = u32_to_le_bytes(*topic_id);
            out.append(&mut field);
            let mut field = u32_to_le_bytes(*partition_id);
            out.append(&mut field);
            let mut field = u128_to_le_bytes(*message_id);
            out.append(&mut field);
            let mut field = u32_to_le_bytes(payload.len() as u32);
            out.append(&mut field);
            push_bytes(&mut out, payload);
            proof {
                assert(out@ =~= spec_encode(c@));
            }
        },
        Command::PollMessages { stream_id, topic_id, partition_id, offset, count } => {
            out.push(OPCODE_POLL_MESSAGES);
            let mut field = u32_to_le_bytes(*stream_id);
            out.append(&mut field);
            let mut field = u32_to_le_bytes(*topic_id);
            out.append(&mut field);
            let mut field = u32_to_le_bytes(*partition_id);
            out.append(&mut field);
            let mut field = u64_to_le_bytes(*offset);
            out.append(&mut field);
            let mut field = u32_to_le_bytes(*count);
            out.append(&mut field);
            proof {
                assert(out@ =~= spec_encode(c@));
            }
        },
    }
    out
}

/// Decodes one command from `bytes`.  A buffer over the command bound fails
/// with `PayloadTooLarge`; malformed bytes fail with `InvalidCommand`.
pub fn decode(bytes: &Vec<u8>) -> (r: Result<Command, Error>)
    ensures
        bytes@.len() > MAX_COMMAND_SIZE ==> r == Err::<Command, Error>(Error::PayloadTooLarge),
        bytes@.len() <= MAX_COMMAND_SIZE ==> match spec_decode(bytes@) {
            Some(c) => r is Ok && r->Ok_0@ == c,
            None => r == Err::<Command, Error>(Error::InvalidCommand),
        },
{
    if bytes.len() as u64 > MAX_COMMAND_SIZE {
        return Err(Error::PayloadTooLarge);
    }
    if bytes.len() < 1 {
        return Err(Error::InvalidCommand);
    }
    let b = bytes.as_slice();
    let op = bytes[0];
    if op == OPCODE_CREATE_STREAM {
        if bytes.len() < 6 {
            return Err(Error::InvalidCommand);
        }
        let name_len = bytes[5] as usize;
        if bytes.len() != 6 + name_len {
            return Err(Error::InvalidCommand);
        }
        let stream_id = u32_from_le_bytes(slice_subrange(b, 1, 5));
        let name = slice_to_vec(slice_subrange(b, 6, bytes.len()));
        Ok(Command::CreateStream { stream_id, name })
    } else if op == OPCODE_CREATE_TOPIC {
        if bytes.len() < 14 {
            return Err(Error::InvalidCommand);
        }
        let name_len = bytes[13] as usize;
        if bytes.len() != 14 + name_len {
            return Err(Error::InvalidCommand);
        }
        let stream_id = u32_from_le_bytes(slice_subrange(b, 1, 5));
        let topic_id = u32_from_le_bytes(slice_subrange(b, 5, 9));
        let partitions_count = u32_from_le_bytes(slice_subrange(b, 9, 13));
        let name = slice_to_vec(slice_subrange(b, 14, bytes.len()));
        Ok(Command::CreateTopic { stream_id, topic_id, partitions_count, name })
    } else if op == OPCODE_SEND_MESSAGES {
        if (bytes.len() as u64) < SEND_MESSAGES_HEADER_SIZE {
            return Err(Error::InvalidCommand);
        }
        let payload_len = u32_from_le_bytes(slice_subrange(b, 29, 33));
        if bytes.len() as u64 != SEND_MESSAGES_HEADER_SIZE + payload_len as u64 {
            return Err(Error::InvalidCommand);
        }
        let stream_id = u32_from_le_bytes(slice_subrange(b, 1, 5));
        let topic_id = u32_from_le_bytes(slice_subrange(b, 5, 9));
        let partition_id = u32_from_le_bytes(slice_subrange(b, 9, 13));
        let message_id = u128_from_le_bytes(slice_subrange(b, 13, 29));
        let payload = slice_to_vec(slice_subrange(b, 33, bytes.len()));
        Ok(Command::SendMessages { stream_id, topic_id, partition_id, message_id, payload })
    } else if op == OPCODE_POLL_MESSAGES {
        if bytes.len() != 25 {
            return Err(Error::InvalidCommand);
        }
        let stream_id = u32_from_le_bytes(slice_subrange(b, 1, 5));
        let topic_id = u32_from_le_bytes(slice_subrange(b, 5, 9));
        let partition_id = u32_from_le_bytes(slice_subrange(b, 9, 13));
        let offset = u64_from_le_bytes(slice_subrange(b, 13, 21));
        let count = u32_from_le_bytes(slice_subrange(b, 21, 25));
        Ok(Command::PollMessages { stream_id, topic_id, partition_id, offset, count })
    } else {
        Err(Error::InvalidCommand)
    }
}

/// Nonzero status byte a response carries for each error kind.
pub open spec fn spec_status_code(e: Error) -> u8 {
    match e {
        Error::StreamNotFound(_) => 1,
        Error::TopicNotFound(_) => 2,
        Error::PartitionNotFound(_) => 3,
        Error::PayloadTooLarge => 4,
        Error::PartitionFull => 5,
        Error::InvalidCount => 6,
        Error::InvalidCommand => 7,
        Error::Timeout => 8,
        Error::TransportFailure => 9,
        Error::Unknown => 10,
    }
}

/// The status byte for `e`; always nonzero, so a client can tell it from
/// the zero byte that opens a successful response.
pub fn status_code(e: &Error) -> (r: u8)
    ensures
        r == spec_status_code(*e),
        r != 0,
{
    match e {
        Error::StreamNotFound(_) => 1,
        Error::TopicNotFound(_) => 2,
        Error::PartitionNotFound(_) => 3,
        Error::PayloadTooLarge => 4,
        Error::PartitionFull => 5,
        Error::InvalidCount => 6,
        Error::InvalidCommand => 7,
        Error::Timeout => 8,
        Error::TransportFailure => 9,
        Error::Unknown => 10,
    }
}

/// One message of a poll response body: offset, timestamp and the payload
/// behind its u32 length.  Message ids do not travel in responses.
pub open spec fn spec_encode_polled(m: MessageView) -> Seq<u8> {
    spec_u64_to_le_bytes(m.offset) + spec_u64_to_le_bytes(m.timestamp) + spec_u32_to_le_bytes(
        m.payload.len() as u32,
    ) + m.payload
}

/// The concatenated records of a poll response body, in order.
pub open spec fn spec_encode_polled_seq(msgs: Seq<MessageView>) -> Seq<u8>
    decreases msgs.len(),
{
    if msgs.len() == 0 {
        Seq::empty()
    } else {
        spec_encode_polled(msgs[0]) + spec_encode_polled_seq(msgs.drop_first())
    }
}

/// A message as the response wire format carries it: the id, which does
/// not travel, reads back as zero.
pub open spec fn wire_form(m: MessageView) -> MessageView {
    MessageView { id: 0, offset: m.offset, timestamp: m.timestamp, payload: m.payload }
}

/// Decodes exactly `count` records from `s`, which must hold nothing else.
pub open spec fn spec_decode_polled_seq(s: Seq<u8>, count: int) -> Option<Seq<MessageView>>
    decreases count,
{
    if count <= 0 {
        if s.len() == 0 && count == 0 {
            Some(Seq::empty())
        } else {
            None
        }
    } else if s.len() < 20 {
        None
    } else {
        let payload_len = spec_u32_from_le_bytes(s.subrange(16, 20)) as int;
        if s.len() < 20 + payload_len {
            None
        } else {
            let m = MessageView {
                id: 0,
                offset: spec_u64_from_le_bytes(s.subrange(0, 8)),
                timestamp: spec_u64_from_le_bytes(s.subrange(8, 16)),
                payload: s.subrange(20, 20 + payload_len),
            };
            match spec_decode_polled_seq(s.skip(20 + payload_len), count - 1) {
                Some(rest) => Some(seq![m] + rest),
                None => None,
            }
        }
    }
}

/// A successful poll response: a zero status byte, the u32 message count,
/// then the records.
pub open spec fn spec_encode_poll_response(msgs: Seq<MessageView>) -> Seq<u8> {
    seq![0u8] + spec_u32_to_le_bytes(msgs.len() as u32) + spec_encode_polled_seq(msgs)
}

/// The messages a successful poll response carries, or `None` when the
/// bytes are malformed or open with a nonzero status.
pub open spec fn spec_decode_poll_response(s: Seq<u8>) -> Option<Seq<MessageView>> {
    if s.len() < 5 || s[0] != 0 {
        None
    } else {
        spec_decode_polled_seq(s.skip(5), spec_u32_from_le_bytes(s.subrange(1, 5)) as int)
    }
}

/// Whether the response wire format can carry these messages: the count
/// and each payload length fit their u32 fields.
pub open spec fn valid_poll_response(msgs: Seq<MessageView>) -> bool {
    &&& msgs.len() <= u32::MAX
    &&& forall|i: int| 0 <= i < msgs.len() ==> (#[trigger] msgs[i]).payload.len() <= u32::MAX
}

/// Record concatenation extends at the end.
proof fn lemma_encode_polled_push(msgs: Seq<MessageView>, m: MessageView)
    ensures
        spec_encode_polled_seq(msgs.push(m)) == spec_encode_polled_seq(msgs)
            + spec_encode_polled(m),
    decreases msgs.len(),
{
    if msgs.len() == 0 {
        assert(msgs.push(m)[0] == m);
        assert(msgs.push(m).drop_first() =~= Seq::<MessageView>::empty());
        assert(spec_encode_polled_seq(Seq::<MessageView>::empty()) == Seq::<u8>::empty());
        assert(spec_encode_polled_seq(msgs.push(m)) == spec_encode_polled(m) + Seq::<u8>::empty());
        assert(spec_encode_polled(m) + Seq::<u8>::empty() =~= Seq::<u8>::empty()
            + spec_encode_polled(m));
    } else {
        lemma_encode_polled_push(msgs.drop_first(), m);
        assert(msgs.push(m)[0] == msgs[0]);
        assert(msgs.push(m).drop_first() =~= msgs.drop_first().push(m));
        assert(spec_encode_polled(msgs[0]) + (spec_encode_polled_seq(msgs.drop_first())
            + spec_encode_polled(m)) =~= (spec_encode_polled(msgs[0]) + spec_encode_polled_seq(
            msgs.drop_first(),
        )) + spec_encode_polled(m));
    }
}

/// Round trip of the records: decoding what was encoded yields the same
/// messages in their wire form, ids aside (they do not travel).
pub proof fn lemma_poll_response_round_trip(msgs: Seq<MessageView>)
    requires
        valid_poll_response(msgs),
    ensures
        spec_decode_poll_response(spec_encode_poll_response(msgs)) == Some(
            msgs.map_values(|m: MessageView| wire_form(m)),
        ),
{
    lemma_auto_spec_u32_to_from_le_bytes();
    let e = spec_encode_poll_response(msgs);
    assert(e[0] == 0);
    assert(e.subrange(1, 5) =~= spec_u32_to_le_bytes(msgs.len() as u32));
    assert(e.skip(5) =~= spec_encode_polled_seq(msgs));
    lemma_polled_seq_round_trip(msgs);
    assert(spec_decode_poll_response(e) == spec_decode_polled_seq(
        spec_encode_polled_seq(msgs),
        msgs.len() as int,
    ));
}

/// Round trip of the record concatenation, by induction on the messages.
proof fn lemma_polled_seq_round_trip(msgs: Seq<MessageView>)
    requires
        forall|i: int| 0 <= i < msgs.len() ==> (#[trigger] msgs[i]).payload.len() <= u32::MAX,
    ensures
        spec_decode_polled_seq(spec_encode_polled_seq(msgs), msgs.len() as int) == Some(
            msgs.map_values(|m: MessageView| wire_form(m)),
        ),
    decreases msgs.len(),
{
    lemma_auto_spec_u32_to_from_le_bytes();
    lemma_auto_spec_u64_to_from_le_bytes();
    if msgs.len() == 0 {
        assert(msgs.map_values(|m: MessageView| wire_form(m)) =~= Seq::<MessageView>::empty());
    } else {
        let m0 = msgs[0];
        let head = spec_encode_polled(m0);
        let e = spec_encode_polled_seq(msgs);
        let record_len = 20 + m0.payload.len() as int;
        assert(head.len() == record_len);
        assert(e =~= head + spec_encode_polled_seq(msgs.drop_first()));
        assert(e.subrange(0, 8) =~= spec_u64_to_le_bytes(m0.offset));
        assert(e.subrange(8, 16) =~= spec_u64_to_le_bytes(m0.timestamp));
        assert(e.subrange(16, 20) =~= spec_u32_to_le_bytes(m0.payload.len() as u32));
        assert(e.subrange(20, record_len) =~= m0.payload);
        assert(e.skip(record_len) =~= spec_encode_polled_seq(msgs.drop_first()));
        lemma_polled_seq_round_trip(msgs.drop_first());
        assert(seq![wire_form(m0)] + msgs.drop_first().map_values(
            |m: MessageView| wire_form(m),
        ) =~= msgs.map_values(|m: MessageView| wire_form(m)));
    }
}

/// Encodes a successful poll response.
pub fn encode_poll_response(messages: &Vec<Message>) -> (r: Vec<u8>)
    requires
        valid_poll_response(msgs_view(messages@)),
    ensures
        r@ == spec_encode_poll_response(msgs_view(messages@)),
{
    let mut out: Vec<u8> = Vec::new();
    out.push(0u8);
    let mut field = u32_to_le_bytes(messages.len() as u32);
    out.append(&mut field);
    let mut i: usize = 0;
    while i < messages.len()
        invariant
            i <= messages@.len(),
            valid_poll_response(msgs_view(messages@)),
            out@ == seq![0u8] + spec_u32_to_le_bytes(messages@.len() as u32)
                + spec_encode_polled_seq(msgs_view(messages@).subrange(0, i as int)),
        decreases messages@.len() - i,
    {
        proof {
            lemma_encode_polled_push(
                msgs_view(messages@).subrange(0, i as int),
                msgs_view(messages@)[i as int],
            );
            assert(msgs_view(messages@).subrange(0, i + 1) =~= msgs_view(messages@).subrange(
                0,
                i as int,
            ).push(msgs_view(messages@)[i as int]));
        }
        let m = &messages[i];
        let mut field = u64_to_le_bytes(m.offset);
        out.append(&mut field);
        let mut field = u64_to_le_bytes(m.timestamp);
        out.append(&mut field);
        let mut field = u32_to_le_bytes(m.payload.len() as u32);
        out.append(&mut field);
        push_bytes(&mut out, &m.payload);
        proof {
            assert(out@ =~= seq![0u8] + spec_u32_to_le_bytes(messages@.len() as u32)
                + spec_encode_polled_seq(msgs_view(messages@).subrange(0, i + 1)));
        }
        i = i + 1;
    }
    proof {
        assert(msgs_view(messages@).subrange(0, messages@.len() as int) =~= msgs_view(messages@));
    }
    out
}

/// Decodes a successful poll response; any malformed or nonzero-status
/// buffer fails with `InvalidCommand`.
#[verifier::loop_isolation(false)]
pub fn decode_poll_response(bytes: &Vec<u8>) -> (r: Result<Vec<Message>, Error>)
    ensures
        match spec_decode_poll_response(bytes@) {
            Some(msgs) => r is Ok && msgs_view(r->Ok_0@) == msgs,
            None => r == Err::<Vec<Message>, Error>(Error::InvalidCommand),
        },
{
    if bytes.len() < 5 {
        return Err(Error::InvalidCommand);
    }
    if bytes[0] != 0 {
        return Err(Error::InvalidCommand);
    }
    let count = u32_from_le_bytes(slice_subrange(bytes.as_slice(), 1, 5));
    let ghost body = bytes@.skip(5);
    let mut out: Vec<Message> = Vec::new();
    let mut pos: usize = 5;
    let mut i: u32 = 0;
    while i < count
        invariant
            5 <= pos <= bytes@.len(),
            i <= count,
            body == bytes@.skip(5),
            spec_decode_polled_seq(body, count as int) == (match spec_decode_polled_seq(
                bytes@.subrange(pos as int, bytes@.len() as int),
                count - i,
            ) {
                Some(rest) => Some(msgs_view(out@) + rest),
                None => None::<Seq<MessageView>>,
            }),
            out@.len() == i,
        decreases count - i,
    {
        let ghost remaining = bytes@.subrange(pos as int, bytes@.len() as int);
        if bytes.len() - pos < 20 {
            proof {
                assert(remaining.len() < 20);
                assert(spec_decode_polled_seq(remaining, count - i) is None);
            }
            return Err(Error::InvalidCommand);
        }
        let b = bytes.as_slice();
        let offset = u64_from_le_bytes(slice_subrange(b, pos, pos + 8));
        let timestamp = u64_from_le_bytes(slice_subrange(b, pos + 8, pos + 16));
        let payload_len = u32_from_le_bytes(slice_subrange(b, pos + 16, pos + 20));
        proof {
            assert(remaining.subrange(0, 8) =~= bytes@.subrange(pos as int, pos + 8));
            assert(remaining.subrange(8, 16) =~= bytes@.subrange(pos + 8, pos + 16));
            assert(remaining.subrange(16, 20) =~= bytes@.subrange(pos + 16, pos + 20));
        }
        let room = (bytes.len() - pos - 20) as u64;
        if room < payload_len as u64 {
            proof {
                assert(remaining.len() < 20 + payload_len as int);
                assert(spec_decode_polled_seq(remaining, count - i) is None);
            }
            return Err(Error::InvalidCommand);
        }
        let payload_len = payload_len as usize;
        let payload = slice_to_vec(slice_subrange(b, pos + 20, pos + 20 + payload_len));
        proof {
            assert(remaining.subrange(20, 20 + payload_len as int) =~= bytes@.subrange(
                pos + 20,
                pos + 20 + payload_len as int,
            ));
            assert(remaining.skip(20 + payload_len as int) =~= bytes@.subrange(
                pos + 20 + payload_len as int,
                bytes@.len() as int,
            ));
        }
        let message = Message { id: 0, offset, timestamp, payload };
        let ghost mv = message@;
        out.push(message);
        proof {
            assert(msgs_view(out@) =~= msgs_view(out@.subrange(0, out@.len() - 1)).push(mv));
            assert(msgs_view(out@.subrange(0, out@.len() - 1)).push(mv) =~= msgs_view(
                out@.drop_last(),
            ).push(mv));
            match spec_decode_polled_seq(
                bytes@.subrange(pos + 20 + payload_len as int, bytes@.len() as int),
                count - i - 1,
            ) {
                Some(rest) => {
                    assert(msgs_view(out@.drop_last()) + (seq![mv] + rest) =~= msgs_view(out@)
                        + rest);
                },
                None => {},
            }
        }
        pos = pos + 20 + payload_len;
        i = i + 1;
    }
    if pos != bytes.len() {
        proof {
            assert(bytes@.subrange(pos as int, bytes@.len() as int).len() > 0);
            assert(spec_decode_polled_seq(
                bytes@.subrange(pos as int, bytes@.len() as int),
                0,
            ) is None);
        }
        return Err(Error::InvalidCommand);
    }
    proof {
        assert(bytes@.subrange(pos as int, bytes@.len() as int) =~= Seq::<u8>::empty());
        assert(msgs_view(out@) + Seq::<MessageView>::empty() =~= msgs_view(out@));
    }
    Ok(out)
}

} // verus!
