use vstd::prelude::*;

use crate::codec::{Command, CommandView};
use crate::error::Error;
use crate::message::{msgs_view, Message, MessageView};
use crate::system::{
    system_append, system_create_stream, system_create_topic, system_poll, System, SystemView,
};

verus! {

/// What a handled command answers with; on the wire this becomes a zero
/// status byte followed by the command-specific body.
pub enum Response {
    Created,
    Appended,
    Messages(Vec<Message>),
}

/// The mathematical value of a `Response`.
#[verifier::ext_equal]
pub ghost enum ResponseView {
    Created,
    Appended,
    Messages(Seq<MessageView>),
}

impl View for Response {
    type V = ResponseView;

    open spec fn view(&self) -> ResponseView {
        match self {
            Response::Created => ResponseView::Created,
            Response::Appended => ResponseView::Appended,
            Response::Messages(msgs) => ResponseView::Messages(msgs_view(msgs@)),
        }
    }
}

/// The effect of one command on registry state `s`: the new state and the
/// response, or the error.  `timestamp` is the append time the server
/// stamps on incoming messages; each command either fully commits or
/// leaves the state as it was.
pub open spec fn spec_handle(s: SystemView, c: CommandView, timestamp: u64) -> Result<
    (SystemView, ResponseView),
    Error,
> {
    match c {
        CommandView::CreateStream { stream_id, name } => {
            match system_create_stream(s, stream_id, name) {
                Ok(sv) => Ok((sv, ResponseView::Created)),
                Err(e) => Err(e),
            }
        },
        CommandView::CreateTopic { stream_id, topic_id, partitions_count, name } => {
            match system_create_topic(s, stream_id, topic_id, partitions_count, name) {
                Ok(sv) => Ok((sv, ResponseView::Created)),
                Err(e) => Err(e),
            }
        },
        CommandView::SendMessages { stream_id, topic_id, partition_id, message_id, payload } => {
            let m = MessageView { id: message_id, offset: 0, timestamp, payload };
            match system_append(s, stream_id, topic_id, partition_id, m) {
                Ok((sv, _offset)) => Ok((sv, ResponseView::Appended)),
                Err(e) => Err(e),
            }
        },
        CommandView::PollMessages { stream_id, topic_id, partition_id, offset, count } => {
            match system_poll(s, stream_id, topic_id, partition_id, offset, count) {
                Ok(msgs) => Ok((s, ResponseView::Messages(msgs))),
                Err(e) => Err(e),
            }
        },
    }
}

/// Applies one decoded command to the registry.  `timestamp` is stamped on
/// appended messages; the caller supplies it so the engine itself never
/// reads a clock.
pub fn handle_command(system: &mut System, command: Command, timestamp: u64) -> (r: Result<
    Response,
    Error,
>)
    requires
        old(system).wf(),
    ensures
        final(system).wf(),
        match spec_handle(old(system)@, command@, timestamp) {
            Ok((sv, resp)) => r is Ok && final(system)@ == sv && r->Ok_0@ == resp,
            Err(e) => r is Err && r->Err_0 == e && final(system)@ == old(system)@,
        },
{
    match command {
        Command::CreateStream { stream_id, name } => {
            match system.create_stream(stream_id, name) {
                Ok(_) => Ok(Response::Created),
                Err(e) => Err(e),
            }
        },
        Command::CreateTopic { stream_id, topic_id, partitions_count, name } => {
            match system.create_topic(stream_id, topic_id, partitions_count, name) {
                Ok(_) => Ok(Response::Created),
                Err(e) => Err(e),
            }
        },
        Command::SendMessages { stream_id, topic_id, partition_id, message_id, payload } => {
            let message = Message::new(message_id, timestamp, payload);
            match system.append_messages(stream_id, topic_id, partition_id, message) {
                Ok(_) => Ok(Response::Appended),
                Err(e) => Err(e),
            }
        },
        Command::PollMessages { stream_id, topic_id, partition_id, offset, count } => {
            match system.get_messages(stream_id, topic_id, partition_id, offset, count) {
                Ok(msgs) => Ok(Response::Messages(msgs)),
                Err(e) => Err(e),
            }
        },
    }
}

} // verus!
