use vstd::prelude::*;

verus! {

/// An immutable record of the log: a per-partition unique id, the offset the
/// partition assigned at append time, a timestamp in milliseconds, and an
/// opaque payload.
pub struct Message {
    pub id: u128,
    pub offset: u64,
    pub timestamp: u64,
    pub payload: Vec<u8>,
}

/// The mathematical value of a `Message`: the payload as a byte sequence.
#[verifier::ext_equal]
pub ghost struct MessageView {
    pub id: u128,
    pub offset: u64,
    pub timestamp: u64,
    pub payload: Seq<u8>,
}

impl View for Message {
    type V = MessageView;

    open spec fn view(&self) -> MessageView {
        MessageView {
            id: self.id,
            offset: self.offset,
            timestamp: self.timestamp,
            payload: self.payload@,
        }
    }
}

/// The values of a sequence of messages.
pub open spec fn msgs_view(s: Seq<Message>) -> Seq<MessageView> {
    s.map_values(|m: Message| m@)
}

impl Message {
    pub fn new(id: u128, timestamp: u64, payload: Vec<u8>) -> (m: Message)
        ensures
            m@ == (MessageView { id, offset: 0, timestamp, payload: payload@ }),
    {
        Message { id, offset: 0, timestamp, payload }
    }
}

impl Clone for Message {
    fn clone(&self) -> (m: Self)
        ensures
            m@ == self@,
    {
        Message {
            id: self.id,
            offset: self.offset,
            timestamp: self.timestamp,
            payload: vstd::slice::slice_to_vec(self.payload.as_slice()),
        }
    }
}

} // verus!
