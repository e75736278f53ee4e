use streaming::message::Message;
use streaming::storage::{encode_records, recover};

fn sample() -> Vec<Message> {
    vec![
        Message { id: 11, offset: 0, timestamp: 100, payload: b"alpha".to_vec() },
        Message { id: 22, offset: 1, timestamp: 101, payload: vec![] },
        Message { id: 33, offset: 2, timestamp: 102, payload: b"omega".to_vec() },
    ]
}

#[test]
fn intact_file_recovers_every_record() {
    let file = encode_records(&sample());
    // offset:u64, timestamp:u64, id:u128, payload_len:u32, payload
    assert_eq!(file.len(), (36 + 5) + 36 + (36 + 5));
    let recovered = recover(&file);
    assert_eq!(recovered.len(), 3);
    for (got, sent) in recovered.iter().zip(sample().iter()) {
        assert_eq!(got.id, sent.id);
        assert_eq!(got.offset, sent.offset);
        assert_eq!(got.timestamp, sent.timestamp);
        assert_eq!(got.payload, sent.payload);
    }
}

#[test]
fn empty_file_recovers_empty_log() {
    assert!(recover(&vec![]).is_empty());
}

#[test]
fn crash_mid_record_truncates_to_last_complete_record() {
    let mut file = encode_records(&sample());
    // lose the last 3 bytes of the final record's payload
    file.truncate(file.len() - 3);
    let recovered = recover(&file);
    assert_eq!(recovered.len(), 2);
    assert_eq!(recovered[0].id, 11);
    assert_eq!(recovered[1].id, 22);

    // a partial header is dropped the same way
    let mut file = encode_records(&sample());
    file.extend_from_slice(&[1, 2, 3, 4, 5]);
    assert_eq!(recover(&file).len(), 3);
}

#[test]
fn recovery_reconstructs_next_offset_as_record_count() {
    let file = encode_records(&sample());
    let recovered = recover(&file);
    assert_eq!(recovered.len() as u64, 3);
    assert_eq!(recovered.last().unwrap().offset + 1, recovered.len() as u64);
}
