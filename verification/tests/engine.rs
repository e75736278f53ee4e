use streaming::error::Error;
use streaming::message::Message;
use streaming::partition::Partition;
use streaming::system::System;

fn msg(id: u128, timestamp: u64, payload: &[u8]) -> Message {
    Message::new(id, timestamp, payload.to_vec())
}

#[test]
fn poll_returns_all_appends_in_order() {
    let mut p = Partition::new(0, 100);
    assert_eq!(p.append(msg(1, 10, b"a")), Ok(0));
    assert_eq!(p.append(msg(2, 11, b"bb")), Ok(1));
    assert_eq!(p.append(msg(3, 12, b"ccc")), Ok(2));
    let got = p.poll(0, 10).unwrap();
    assert_eq!(got.len(), 3);
    for (i, m) in got.iter().enumerate() {
        assert_eq!(m.offset, i as u64);
    }
    assert_eq!(got[0].payload, b"a".to_vec());
    assert_eq!(got[1].payload, b"bb".to_vec());
    assert_eq!(got[2].payload, b"ccc".to_vec());
}

#[test]
fn nth_append_gets_offset_n_minus_one() {
    let mut p = Partition::new(0, 100);
    for n in 1u64..=20 {
        if n % 3 == 0 {
            // interleaved polls do not disturb offset assignment
            let _ = p.poll(0, 5).unwrap();
        }
        let offset = p.append(msg(n as u128, n, b"x")).unwrap();
        assert_eq!(offset, n - 1);
    }
    assert_eq!(p.next_offset, 20);
}

#[test]
fn poll_past_end_is_empty_not_error() {
    let mut p = Partition::new(0, 100);
    p.append(msg(1, 1, b"a")).unwrap();
    p.append(msg(2, 2, b"b")).unwrap();
    let got = p.poll(2, 10).unwrap();
    assert!(got.is_empty());
    let got = p.poll(100, 1).unwrap();
    assert!(got.is_empty());
}

#[test]
fn poll_zero_count_is_invalid() {
    let mut p = Partition::new(0, 100);
    p.append(msg(1, 1, b"a")).unwrap();
    assert!(matches!(p.poll(0, 0), Err(Error::InvalidCount)));
    let empty = Partition::new(1, 100);
    assert!(matches!(empty.poll(5, 0), Err(Error::InvalidCount)));
}

#[test]
fn append_to_missing_levels_reports_nearest_not_found() {
    let mut system = System::new(100);
    assert_eq!(
        system.append_messages(7, 1, 0, msg(1, 1, b"a")),
        Err(Error::StreamNotFound(7))
    );
    system.create_stream(1, b"s".to_vec()).unwrap();
    assert_eq!(
        system.append_messages(1, 9, 0, msg(1, 1, b"a")),
        Err(Error::TopicNotFound(9))
    );
    system.create_topic(1, 1, 2, b"t".to_vec()).unwrap();
    assert_eq!(
        system.append_messages(1, 1, 5, msg(1, 1, b"a")),
        Err(Error::PartitionNotFound(5))
    );
}

#[test]
fn appended_message_polls_back_identical() {
    let mut p = Partition::new(0, 100);
    let offset = p.append(msg(0xDEAD_BEEF, 777, b"payload!")).unwrap();
    let got = p.poll(offset, 1).unwrap();
    assert_eq!(got.len(), 1);
    assert_eq!(got[0].id, 0xDEAD_BEEF);
    assert_eq!(got[0].timestamp, 777);
    assert_eq!(got[0].payload, b"payload!".to_vec());
    assert_eq!(got[0].offset, offset);
}

#[test]
fn payload_at_maximum_succeeds_one_over_fails() {
    let mut p = Partition::new(0, 4);
    assert_eq!(p.append(msg(1, 1, b"abcd")), Ok(0));
    assert_eq!(p.append(msg(2, 2, b"abcde")), Err(Error::PayloadTooLarge));
}

#[test]
fn failed_append_leaves_partition_unchanged() {
    let mut p = Partition::new(0, 4);
    p.append(msg(1, 1, b"ok")).unwrap();
    let before = p.next_offset;
    assert_eq!(p.append(msg(2, 2, b"toolong")), Err(Error::PayloadTooLarge));
    assert_eq!(p.next_offset, before);
    let got = p.poll(0, 10).unwrap();
    assert_eq!(got.len(), 1);
    assert_eq!(got[0].payload, b"ok".to_vec());
}

#[test]
fn poll_spanning_end_returns_existing_prefix() {
    let mut p = Partition::new(0, 100);
    p.append(msg(1, 1, b"a")).unwrap();
    p.append(msg(2, 2, b"b")).unwrap();
    p.append(msg(3, 3, b"c")).unwrap();
    let got = p.poll(1, 10).unwrap();
    assert_eq!(got.len(), 2);
    assert_eq!(got[0].payload, b"b".to_vec());
    assert_eq!(got[1].payload, b"c".to_vec());
}

#[test]
fn three_appends_then_poll_scenario() {
    let mut system = System::new(1000);
    system.create_stream(1, b"s".to_vec()).unwrap();
    system.create_topic(1, 1, 1, b"t".to_vec()).unwrap();
    system.append_messages(1, 1, 0, msg(1, 1, b"a")).unwrap();
    system.append_messages(1, 1, 0, msg(2, 2, b"bb")).unwrap();
    system.append_messages(1, 1, 0, msg(3, 3, b"ccc")).unwrap();
    let got = system.get_messages(1, 1, 0, 0, 10).unwrap();
    assert_eq!(got.len(), 3);
    assert_eq!((got[0].offset, got[0].payload.clone()), (0, b"a".to_vec()));
    assert_eq!((got[1].offset, got[1].payload.clone()), (1, b"bb".to_vec()));
    assert_eq!((got[2].offset, got[2].payload.clone()), (2, b"ccc".to_vec()));
}

#[test]
fn four_partitions_route_independently() {
    let mut system = System::new(1000);
    system.create_stream(1, b"s".to_vec()).unwrap();
    system.create_topic(1, 5, 4, b"t5".to_vec()).unwrap();
    system.append_messages(1, 5, 2, msg(1, 1, b"x")).unwrap();
    system.append_messages(1, 5, 2, msg(2, 2, b"y")).unwrap();
    system.append_messages(1, 5, 3, msg(3, 3, b"z")).unwrap();
    let p2 = system.get_messages(1, 5, 2, 0, 10).unwrap();
    assert_eq!(p2.len(), 2);
    assert_eq!((p2[0].offset, p2[0].payload.clone()), (0, b"x".to_vec()));
    assert_eq!((p2[1].offset, p2[1].payload.clone()), (1, b"y".to_vec()));
    let p3 = system.get_messages(1, 5, 3, 0, 10).unwrap();
    assert_eq!(p3.len(), 1);
    assert_eq!((p3[0].offset, p3[0].payload.clone()), (0, b"z".to_vec()));
}

#[test]
fn poll_missing_topic_reports_its_id() {
    let mut system = System::new(1000);
    system.create_stream(1, b"s".to_vec()).unwrap();
    assert!(matches!(
        system.get_messages(1, 99, 0, 0, 10),
        Err(Error::TopicNotFound(99))
    ));
}

#[test]
fn duplicate_ids_and_names_are_rejected() {
    let mut system = System::new(1000);
    system.create_stream(1, b"s".to_vec()).unwrap();
    assert_eq!(system.create_stream(1, b"other".to_vec()), Err(Error::Unknown));
    assert_eq!(system.create_stream(2, b"s".to_vec()), Err(Error::Unknown));
    system.create_topic(1, 1, 1, b"t".to_vec()).unwrap();
    assert_eq!(system.create_topic(1, 1, 1, b"u".to_vec()), Err(Error::Unknown));
    assert_eq!(system.create_topic(1, 2, 1, b"t".to_vec()), Err(Error::Unknown));
    assert_eq!(
        system.create_topic(9, 3, 1, b"v".to_vec()),
        Err(Error::StreamNotFound(9))
    );
}
