use vstd::bytes::{
    spec_u128_from_le_bytes, spec_u128_to_le_bytes, spec_u32_from_le_bytes, spec_u32_to_le_bytes,
    spec_u64_from_le_bytes, spec_u64_to_le_bytes, u128_from_le_bytes, u128_to_le_bytes,
    u32_from_le_bytes, u32_to_le_bytes, u64_from_le_bytes, u64_to_le_bytes,
    lemma_auto_spec_u128_to_from_le_bytes, lemma_auto_spec_u32_to_from_le_bytes,
    lemma_auto_spec_u64_to_from_le_bytes,
};
use vstd::prelude::*;
use vstd::slice::{slice_subrange, slice_to_vec};

use crate::message::{msgs_view, Message, MessageView};

verus! {

/// Fixed part of a persisted record: offset, timestamp, id and the u32
/// payload length.
pub const RECORD_HEADER_SIZE: u64 = 36;

/// One record of a partition's append-only file:
/// `offset:u64, timestamp:u64, id:u128, payload_len:u32, payload`.
pub open spec fn spec_encode_record(m: MessageView) -> Seq<u8> {
    spec_u64_to_le_bytes(m.offset) + spec_u64_to_le_bytes(m.timestamp) + spec_u128_to_le_bytes(
        m.id,
    ) + spec_u32_to_le_bytes(m.payload.len() as u32) + m.payload
}

/// The file contents that persist a log: its records, in offset order.
pub open spec fn spec_encode_records(msgs: Seq<MessageView>) -> Seq<u8>
    decreases msgs.len(),
{
    if msgs.len() == 0 {
        Seq::empty()
    } else {
        spec_encode_record(msgs[0]) + spec_encode_records(msgs.drop_first())
    }
}

/// Whether the record format can carry these messages: each payload length
/// fits its u32 field.
pub open spec fn valid_records(msgs: Seq<MessageView>) -> bool {
    forall|i: int| 0 <= i < msgs.len() ==> (#[trigger] msgs[i]).payload.len() <= u32::MAX
}

/// What recovery reads from a file: complete records from the front;
/// truncated trailing bytes — a partial header, or a header whose payload
/// did not all reach the disk — are dropped.
pub open spec fn spec_recover(s: Seq<u8>) -> Seq<MessageView>
    decreases s.len(),
{
    if s.len() < 36 {
        Seq::empty()
    } else {
        let payload_len = spec_u32_from_le_bytes(s.subrange(32, 36)) as int;
        if s.len() < 36 + payload_len {
            Seq::empty()
        } else {
            let m = MessageView {
                offset: spec_u64_from_le_bytes(s.subrange(0, 8)),
                timestamp: spec_u64_from_le_bytes(s.subrange(8, 16)),
                id: spec_u128_from_le_bytes(s.subrange(16, 32)),
                payload: s.subrange(36, 36 + payload_len),
            };
            seq![m] + spec_recover(s.skip(36 + payload_len))
        }
    }
}

/// The file grows only at its end: persisting one more message appends one
/// record and rewrites nothing.
pub proof fn lemma_records_append_only(msgs: Seq<MessageView>, m: MessageView)
    ensures
        spec_encode_records(msgs.push(m)) == spec_encode_records(msgs) + spec_encode_record(m),
    decreases msgs.len(),
{
    if msgs.len() == 0 {
        assert(msgs.push(m)[0] == m);
        assert(msgs.push(m).drop_first() =~= Seq::<MessageView>::empty());
        assert(spec_encode_records(Seq::<MessageView>::empty()) == Seq::<u8>::empty());
        assert(spec_encode_record(m) + Seq::<u8>::empty() =~= Seq::<u8>::empty()
            + spec_encode_record(m));
    } else {
        lemma_records_append_only(msgs.drop_first(), m);
        assert(msgs.push(m)[0] == msgs[0]);
        assert(msgs.push(m).drop_first() =~= msgs.drop_first().push(m));
        assert(spec_encode_record(msgs[0]) + (spec_encode_records(msgs.drop_first())
            + spec_encode_record(m)) =~= (spec_encode_record(msgs[0]) + spec_encode_records(
            msgs.drop_first(),
        )) + spec_encode_record(m));
    }
}

/// Recovery of an intact file yields exactly the persisted messages, and
/// `next_offset` is reconstructed as their count.
pub proof fn lemma_recover_intact(msgs: Seq<MessageView>)
    requires
        valid_records(msgs),
    ensures
        spec_recover(spec_encode_records(msgs)) == msgs,
    decreases msgs.len(),
{
    lemma_recover_with_tail(msgs, Seq::empty());
    assert(spec_encode_records(msgs) + Seq::<u8>::empty() =~= spec_encode_records(msgs));
}

/// Whether `tail` is too short to be one complete record: a crash left a
/// partial header, or a header whose payload is incomplete.
pub open spec fn partial_record(tail: Seq<u8>) -> bool {
    ||| tail.len() < 36
    ||| tail.len() < 36 + spec_u32_from_le_bytes(tail.subrange(32, 36))
}

/// Crash safety: recovery of an intact file with truncated trailing bytes
/// after it yields exactly the persisted messages, dropping the partial
/// record.
pub proof fn lemma_recover_with_tail(msgs: Seq<MessageView>, tail: Seq<u8>)
    requires
        valid_records(msgs),
        partial_record(tail),
    ensures
        spec_recover(spec_encode_records(msgs) + tail) == msgs,
    decreases msgs.len(),
{
    lemma_auto_spec_u32_to_from_le_bytes();
    lemma_auto_spec_u64_to_from_le_bytes();
    lemma_auto_spec_u128_to_from_le_bytes();
    let e = spec_encode_records(msgs) + tail;
    if msgs.len() == 0 {
        assert(e =~= tail);
    } else {
        let m0 = msgs[0];
        let record_len = 36 + m0.payload.len() as int;
        assert(spec_encode_record(m0).len() == record_len);
        assert(e =~= spec_encode_record(m0) + (spec_encode_records(msgs.drop_first()) + tail));
        assert(e.len() >= record_len);
        assert(e.subrange(0, 8) =~= spec_u64_to_le_bytes(m0.offset));
        assert(e.subrange(8, 16) =~= spec_u64_to_le_bytes(m0.timestamp));
        assert(e.subrange(16, 32) =~= spec_u128_to_le_bytes(m0.id));
        assert(e.subrange(32, 36) =~= spec_u32_to_le_bytes(m0.payload.len() as u32));
        assert(e.subrange(36, record_len) =~= m0.payload);
        assert(e.skip(record_len) =~= spec_encode_records(msgs.drop_first()) + tail);
        lemma_recover_with_tail(msgs.drop_first(), tail);
        assert(seq![m0] + msgs.drop_first() =~= msgs);
    }
}

/// Encodes a log for its append-only file.
pub fn encode_records(messages: &Vec<Message>) -> (r: Vec<u8>)
    requires
        valid_records(msgs_view(messages@)),
    ensures
        r@ == spec_encode_records(msgs_view(messages@)),
{
    let mut out: Vec<u8> = Vec::new();
    let mut i: usize = 0;
    while i < messages.len()
        invariant
            i <= messages@.len(),
            valid_records(msgs_view(messages@)),
            out@ == spec_encode_records(msgs_view(messages@).subrange(0, i as int)),
        decreases messages@.len() - i,
    {
        proof {
            lemma_records_append_only(
                msgs_view(messages@).subrange(0, i as int),
                msgs_view(messages@)[i as int],
            );
            assert(msgs_view(messages@).subrange(0, i + 1) =~= msgs_view(messages@).subrange(
                0,
                i as int,
            ).push(msgs_view(messages@)[i as int]));
        }
        let m = &messages[i];
        let mut field = u64_to_le_bytes(m.offset);
        out.append(&mut field);
        let mut field = u64_to_le_bytes(m.timestamp);
        out.append(&mut field);
        let mut field = u128_to_le_bytes(m.id);
        out.append(&mut field);
        let mut field = u32_to_le_bytes(m.payload.len() as u32);
        out.append(&mut field);
        crate::codec::push_bytes(&mut out, &m.payload);
        proof {
            assert(out@ =~= spec_encode_records(msgs_view(messages@).subrange(0, i + 1)));
        }
        i = i + 1;
    }
    proof {
        assert(msgs_view(messages@).subrange(0, messages@.len() as int) =~= msgs_view(messages@));
    }
    out
}

/// Reads a partition's file back: every complete record from the front, a
/// truncated trailing record dropped.  `next_offset` is the length of the
/// result.
#[verifier::loop_isolation(false)]
pub fn recover(bytes: &Vec<u8>) -> (r: Vec<Message>)
    ensures
        msgs_view(r@) == spec_recover(bytes@),
{
    let mut out: Vec<Message> = Vec::new();
    let mut pos: usize = 0;
    proof {
        assert(bytes@.subrange(0, bytes@.len() as int) =~= bytes@);
        assert(msgs_view(out@) =~= Seq::<MessageView>::empty());
        assert(Seq::<MessageView>::empty() + spec_recover(bytes@) =~= spec_recover(bytes@));
    }
    while pos < bytes.len()
        invariant
            pos <= bytes@.len(),
            spec_recover(bytes@) == msgs_view(out@) + spec_recover(
                bytes@.subrange(pos as int, bytes@.len() as int),
            ),
        decreases bytes@.len() - pos,
    {
        let ghost remaining = bytes@.subrange(pos as int, bytes@.len() as int);
        if bytes.len() - pos < 36 {
            proof {
                assert(spec_recover(remaining) =~= Seq::<MessageView>::empty());
                assert(msgs_view(out@) + Seq::<MessageView>::empty() =~= msgs_view(out@));
            }
            return out;
        }
        let b = bytes.as_slice();
        let payload_len = u32_from_le_bytes(slice_subrange(b, pos + 32, pos + 36));
        proof {
            assert(remaining.subrange(32, 36) =~= bytes@.subrange(pos + 32, pos + 36));
        }
        let room = (bytes.len() - pos - 36) as u64;
        if room < payload_len as u64 {
            proof {
                assert(remaining.len() < 36 + payload_len as int);
                assert(spec_recover(remaining) =~= Seq::<MessageView>::empty());
                assert(msgs_view(out@) + Seq::<MessageView>::empty() =~= msgs_view(out@));
            }
            return out;
        }
        let payload_len = payload_len as usize;
        let offset = u64_from_le_bytes(slice_subrange(b, pos, pos + 8));
        let timestamp = u64_from_le_bytes(slice_subrange(b, pos + 8, pos + 16));
        let id = u128_from_le_bytes(slice_subrange(b, pos + 16, pos + 32));
        let payload = slice_to_vec(slice_subrange(b, pos + 36, pos + 36 + payload_len));
        proof {
            assert(remaining.subrange(0, 8) =~= bytes@.subrange(pos as int, pos + 8));
            assert(remaining.subrange(8, 16) =~= bytes@.subrange(pos + 8, pos + 16));
            assert(remaining.subrange(16, 32) =~= bytes@.subrange(pos + 16, pos + 32));
            assert(remaining.subrange(36, 36 + payload_len as int) =~= bytes@.subrange(
                pos + 36,
                pos + 36 + payload_len as int,
            ));
            assert(remaining.skip(36 + payload_len as int) =~= bytes@.subrange(
                pos + 36 + payload_len as int,
                bytes@.len() as int,
            ));
        }
        let message = Message { id, offset, timestamp, payload };
        let ghost mv = message@;
        out.push(message);
        proof {
            assert(msgs_view(out@) =~= msgs_view(out@.drop_last()).push(mv));
            let rest = spec_recover(
                bytes@.subrange(pos + 36 + payload_len as int, bytes@.len() as int),
            );
            assert(msgs_view(out@.drop_last()) + (seq![mv] + rest) =~= msgs_view(out@) + rest);
        }
        pos = pos + 36 + payload_len;
    }
    proof {
        assert(bytes@.subrange(pos as int, bytes@.len() as int) =~= Seq::<u8>::empty());
        assert(spec_recover(Seq::<u8>::empty()) =~= Seq::<MessageView>::empty());
        assert(msgs_view(out@) + Seq::<MessageView>::empty() =~= msgs_view(out@));
    }
    out
}

} // verus!
