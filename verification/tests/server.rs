use streaming::codec::{decode, encode, Command};
use streaming::error::Error;
use streaming::server::{handle_command, Response};
use streaming::system::System;

fn dispatch(system: &mut System, cmd: Command, timestamp: u64) -> Result<Response, Error> {
    // the wire path: encode, carry, decode, handle
    let bytes = encode(&cmd);
    let decoded = decode(&bytes).unwrap();
    handle_command(system, decoded, timestamp)
}

#[test]
fn commands_drive_the_engine_end_to_end() {
    let mut system = System::new(4096);
    let r = dispatch(
        &mut system,
        Command::CreateStream { stream_id: 1, name: b"s".to_vec() },
        1,
    );
    assert!(matches!(r, Ok(Response::Created)));
    let r = dispatch(
        &mut system,
        Command::CreateTopic { stream_id: 1, topic_id: 1, partitions_count: 1, name: b"t".to_vec() },
        2,
    );
    assert!(matches!(r, Ok(Response::Created)));
    for (i, payload) in [b"a".to_vec(), b"bb".to_vec(), b"ccc".to_vec()].iter().enumerate() {
        let r = dispatch(
            &mut system,
            Command::SendMessages {
                stream_id: 1,
                topic_id: 1,
                partition_id: 0,
                message_id: (i + 1) as u128,
                payload: payload.clone(),
            },
            100 + i as u64,
        );
        assert!(matches!(r, Ok(Response::Appended)));
    }
    let r = dispatch(
        &mut system,
        Command::PollMessages { stream_id: 1, topic_id: 1, partition_id: 0, offset: 0, count: 10 },
        200,
    );
    match r.unwrap() {
        Response::Messages(msgs) => {
            assert_eq!(msgs.len(), 3);
            assert_eq!(msgs[0].payload, b"a".to_vec());
            assert_eq!(msgs[1].payload, b"bb".to_vec());
            assert_eq!(msgs[2].payload, b"ccc".to_vec());
            // the server stamps its own timestamp on appended messages
            assert_eq!(msgs[0].timestamp, 100);
            assert_eq!(msgs[2].timestamp, 102);
            assert_eq!(msgs[0].id, 1);
        }
        _ => panic!("expected messages"),
    }
}

#[test]
fn errors_surface_unchanged_through_dispatch() {
    let mut system = System::new(4096);
    let r = dispatch(
        &mut system,
        Command::SendMessages {
            stream_id: 3,
            topic_id: 1,
            partition_id: 0,
            message_id: 1,
            payload: b"x".to_vec(),
        },
        1,
    );
    assert!(matches!(r, Err(Error::StreamNotFound(3))));
    let r = dispatch(
        &mut system,
        Command::PollMessages { stream_id: 5, topic_id: 1, partition_id: 0, offset: 0, count: 1 },
        1,
    );
    assert!(matches!(r, Err(Error::StreamNotFound(5))));
}
