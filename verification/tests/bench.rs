use streaming::bench::{
    passes, route, total_messages, BenchmarkArgs, BenchmarkKind, BenchmarkResult,
    BenchmarkSummary, Transport,
};
use streaming::message::Message;
use streaming::system::System;

fn args() -> BenchmarkArgs {
    BenchmarkArgs {
        http: false,
        quic: false,
        test_send_messages: false,
        test_poll_messages: false,
        test_send_and_poll_messages: false,
        producers: 1,
        consumers: 1,
        streams: 1,
        topics: 1,
        partitions: 1,
        messages_per_batch: 1,
        message_batches: 1,
        message_size: 64,
    }
}

#[test]
fn send_benchmark_run_totals_and_offsets() {
    let mut a = args();
    a.producers = 2;
    a.messages_per_batch = 10;
    a.message_batches = 5;
    a.message_size = 64;
    assert_eq!(total_messages(&a), 100);

    let mut system = System::new(1024);
    system.create_stream(1, b"bench".to_vec()).unwrap();
    system.create_topic(1, 1, a.partitions, b"t".to_vec()).unwrap();
    let mut id: u128 = 0;
    for _producer in 0..a.producers {
        for _batch in 0..a.message_batches {
            for _m in 0..a.messages_per_batch {
                id += 1;
                let payload = vec![0u8; a.message_size as usize];
                system
                    .append_messages(1, 1, 0, Message::new(id, id as u64, payload))
                    .unwrap();
            }
        }
    }
    let got = system.get_messages(1, 1, 0, 0, 1000).unwrap();
    assert_eq!(got.len(), 100);
    for (i, m) in got.iter().enumerate() {
        assert_eq!(m.offset, i as u64);
    }
}

#[test]
fn send_and_poll_consumer_observes_all_in_order() {
    let a = {
        let mut a = args();
        a.message_batches = 1000;
        a
    };
    assert_eq!(total_messages(&a), 1000);

    let mut system = System::new(1024);
    system.create_stream(1, b"sap".to_vec()).unwrap();
    system.create_topic(1, 1, 1, b"t".to_vec()).unwrap();

    let mut observed: u64 = 0;
    let mut sent: u64 = 0;
    let batch: u32 = 100;
    // producer and consumer take turns, as the concurrent run interleaves them
    while observed < 1000 {
        for _ in 0..a.messages_per_batch {
            if sent < 1000 {
                sent += 1;
                system
                    .append_messages(1, 1, 0, Message::new(sent as u128, sent, vec![7u8; 8]))
                    .unwrap();
            }
        }
        let got = system.get_messages(1, 1, 0, observed, batch).unwrap();
        for m in got.iter() {
            assert_eq!(m.offset, observed);
            observed += 1;
        }
    }
    assert_eq!(observed, 1000);
}

#[test]
fn aggregate_sums_and_averages() {
    let results = vec![
        BenchmarkResult { total_size_bytes: 1000, duration_ms: 40, average_latency_us: 1500 },
        BenchmarkResult { total_size_bytes: 2000, duration_ms: 60, average_latency_us: 2500 },
    ];
    let summary = BenchmarkSummary::aggregate(&results);
    assert_eq!(summary.total_size_bytes, 3000);
    assert_eq!(summary.total_duration_ms, 100);
    assert_eq!(summary.average_latency_us, 2000);
}

#[test]
fn passes_follow_flags() {
    let mut a = args();
    a.http = true;
    a.quic = true;
    a.test_send_messages = true;
    a.test_send_and_poll_messages = true;
    let got = passes(&a);
    assert_eq!(
        got,
        vec![
            (Transport::Http, BenchmarkKind::SendMessages),
            (Transport::Http, BenchmarkKind::SendAndPollMessages),
            (Transport::Quic, BenchmarkKind::SendMessages),
            (Transport::Quic, BenchmarkKind::SendAndPollMessages),
        ]
    );
    a.quic = false;
    a.test_send_and_poll_messages = false;
    a.test_poll_messages = true;
    let got = passes(&a);
    assert_eq!(
        got,
        vec![
            (Transport::Http, BenchmarkKind::SendMessages),
            (Transport::Http, BenchmarkKind::PollMessages),
        ]
    );
    a.http = false;
    assert_eq!(passes(&a), vec![]);
}

#[test]
fn route_is_round_robin_partition_first() {
    // 2 streams, 3 topics, 4 partitions: the partition index moves fastest
    assert_eq!(route(0, 2, 3, 4), (0, 0, 0));
    assert_eq!(route(1, 2, 3, 4), (0, 0, 1));
    assert_eq!(route(4, 2, 3, 4), (0, 1, 0));
    assert_eq!(route(11, 2, 3, 4), (0, 2, 3));
    assert_eq!(route(12, 2, 3, 4), (1, 0, 0));
    assert_eq!(route(24, 2, 3, 4), (0, 0, 0));
}
