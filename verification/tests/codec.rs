use streaming::codec::{
    can_encode, decode, decode_poll_response, encode, encode_poll_response, status_code, Command,
    MAX_COMMAND_SIZE,
};
use streaming::error::Error;
use streaming::message::Message;

#[test]
fn create_stream_round_trips() {
    let cmd = Command::CreateStream { stream_id: 7, name: b"orders".to_vec() };
    assert!(can_encode(&cmd));
    let bytes = encode(&cmd);
    assert_eq!(bytes[0], 1);
    match decode(&bytes).unwrap() {
        Command::CreateStream { stream_id, name } => {
            assert_eq!(stream_id, 7);
            assert_eq!(name, b"orders".to_vec());
        }
        _ => panic!("wrong command"),
    }
}

#[test]
fn create_topic_round_trips() {
    let cmd = Command::CreateTopic {
        stream_id: 1,
        topic_id: 5,
        partitions_count: 4,
        name: b"t5".to_vec(),
    };
    assert!(can_encode(&cmd));
    let bytes = encode(&cmd);
    assert_eq!(bytes[0], 2);
    assert_eq!(bytes.len(), 14 + 2);
    match decode(&bytes).unwrap() {
        Command::CreateTopic { stream_id, topic_id, partitions_count, name } => {
            assert_eq!(stream_id, 1);
            assert_eq!(topic_id, 5);
            assert_eq!(partitions_count, 4);
            assert_eq!(name, b"t5".to_vec());
        }
        _ => panic!("wrong command"),
    }
}

#[test]
fn send_messages_round_trips() {
    let cmd = Command::SendMessages {
        stream_id: 1,
        topic_id: 2,
        partition_id: 3,
        message_id: 0x0123_4567_89AB_CDEF_0123_4567_89AB_CDEF,
        payload: vec![0, 1, 2, 253, 254, 255],
    };
    assert!(can_encode(&cmd));
    let bytes = encode(&cmd);
    assert_eq!(bytes[0], 3);
    assert_eq!(bytes.len(), 33 + 6);
    match decode(&bytes).unwrap() {
        Command::SendMessages { stream_id, topic_id, partition_id, message_id, payload } => {
            assert_eq!(stream_id, 1);
            assert_eq!(topic_id, 2);
            assert_eq!(partition_id, 3);
            assert_eq!(message_id, 0x0123_4567_89AB_CDEF_0123_4567_89AB_CDEF);
            assert_eq!(payload, vec![0, 1, 2, 253, 254, 255]);
        }
        _ => panic!("wrong command"),
    }
}

#[test]
fn poll_messages_round_trips() {
    let cmd = Command::PollMessages {
        stream_id: 9,
        topic_id: 8,
        partition_id: 7,
        offset: 0xFFFF_FFFF_FFFF_0001,
        count: 1000,
    };
    assert!(can_encode(&cmd));
    let bytes = encode(&cmd);
    assert_eq!(bytes[0], 4);
    assert_eq!(bytes.len(), 25);
    match decode(&bytes).unwrap() {
        Command::PollMessages { stream_id, topic_id, partition_id, offset, count } => {
            assert_eq!(stream_id, 9);
            assert_eq!(topic_id, 8);
            assert_eq!(partition_id, 7);
            assert_eq!(offset, 0xFFFF_FFFF_FFFF_0001);
            assert_eq!(count, 1000);
        }
        _ => panic!("wrong command"),
    }
}

#[test]
fn integers_travel_little_endian() {
    let cmd = Command::CreateStream { stream_id: 0x0102_0304, name: vec![] };
    let bytes = encode(&cmd);
    assert_eq!(bytes, vec![1, 0x04, 0x03, 0x02, 0x01, 0]);
}

#[test]
fn malformed_bytes_are_invalid_command() {
    assert!(matches!(decode(&vec![]), Err(Error::InvalidCommand)));
    // unknown opcode
    assert!(matches!(decode(&vec![9, 0, 0, 0, 0]), Err(Error::InvalidCommand)));
    // CreateStream body shorter than its fixed part
    assert!(matches!(decode(&vec![1, 0, 0]), Err(Error::InvalidCommand)));
    // name length field disagrees with the bytes present
    assert!(matches!(
        decode(&vec![1, 0, 0, 0, 0, 5, b'a']),
        Err(Error::InvalidCommand)
    ));
    // PollMessages must be exactly its fixed size
    assert!(matches!(decode(&vec![4; 24]), Err(Error::InvalidCommand)));
}

#[test]
fn oversized_buffer_is_payload_too_large() {
    let big = vec![3u8; (MAX_COMMAND_SIZE as usize) + 1];
    assert!(matches!(decode(&big), Err(Error::PayloadTooLarge)));
}

#[test]
fn poll_response_round_trips() {
    let messages = vec![
        Message { id: 5, offset: 0, timestamp: 100, payload: b"a".to_vec() },
        Message { id: 6, offset: 1, timestamp: 101, payload: b"bb".to_vec() },
    ];
    let bytes = encode_poll_response(&messages);
    // status 0, count 2 little-endian, then 20 header bytes + payload each
    assert_eq!(bytes[0], 0);
    assert_eq!(&bytes[1..5], &[2, 0, 0, 0]);
    assert_eq!(bytes.len(), 5 + (20 + 1) + (20 + 2));
    let decoded = decode_poll_response(&bytes).unwrap();
    assert_eq!(decoded.len(), 2);
    for (got, sent) in decoded.iter().zip(messages.iter()) {
        assert_eq!(got.offset, sent.offset);
        assert_eq!(got.timestamp, sent.timestamp);
        assert_eq!(got.payload, sent.payload);
        // ids do not travel in responses
        assert_eq!(got.id, 0);
    }
}

#[test]
fn empty_poll_response_round_trips() {
    let bytes = encode_poll_response(&vec![]);
    assert_eq!(bytes, vec![0, 0, 0, 0, 0]);
    assert!(decode_poll_response(&bytes).unwrap().is_empty());
}

#[test]
fn malformed_poll_responses_are_rejected() {
    // nonzero status
    assert!(matches!(
        decode_poll_response(&vec![4, 0, 0, 0, 0]),
        Err(Error::InvalidCommand)
    ));
    // count promises a record the bytes do not hold
    assert!(matches!(
        decode_poll_response(&vec![0, 1, 0, 0, 0]),
        Err(Error::InvalidCommand)
    ));
    // trailing bytes after the last record
    let mut bytes = encode_poll_response(&vec![Message {
        id: 1,
        offset: 0,
        timestamp: 1,
        payload: b"x".to_vec(),
    }]);
    bytes.push(0);
    assert!(matches!(decode_poll_response(&bytes), Err(Error::InvalidCommand)));
}

#[test]
fn status_codes_are_nonzero_and_distinct() {
    let codes = [
        status_code(&Error::StreamNotFound(1)),
        status_code(&Error::TopicNotFound(1)),
        status_code(&Error::PartitionNotFound(1)),
        status_code(&Error::PayloadTooLarge),
        status_code(&Error::PartitionFull),
        status_code(&Error::InvalidCount),
        status_code(&Error::InvalidCommand),
        status_code(&Error::Timeout),
        status_code(&Error::TransportFailure),
        status_code(&Error::Unknown),
    ];
    for (i, a) in codes.iter().enumerate() {
        assert_ne!(*a, 0);
        for b in codes.iter().skip(i + 1) {
            assert_ne!(a, b);
        }
    }
}

#[test]
fn overlong_name_cannot_be_encoded() {
    let cmd = Command::CreateStream { stream_id: 1, name: vec![b'x'; 256] };
    assert!(!can_encode(&cmd));
    let cmd = Command::CreateStream { stream_id: 1, name: vec![b'x'; 255] };
    assert!(can_encode(&cmd));
}
