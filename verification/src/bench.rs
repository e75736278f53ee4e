use vstd::prelude::*;

verus! {

/// The two wire transports a benchmark pass can drive.
#[derive(Clone, Copy, Debug, PartialEq, Eq, Structural)]
pub enum Transport {
    Http,
    Quic,
}

/// The three benchmark kinds.
#[derive(Clone, Copy, Debug, PartialEq, Eq, Structural)]
pub enum BenchmarkKind {
    SendMessages,
    PollMessages,
    SendAndPollMessages,
}

/// The harness configuration: which transports and kinds to run, the worker
/// counts, the fan-out to pre-create, and the message shape.
#[derive(Clone, Copy, Debug)]
pub struct BenchmarkArgs {
    pub http: bool,
    pub quic: bool,
    pub test_send_messages: bool,
    pub test_poll_messages: bool,
    pub test_send_and_poll_messages: bool,
    pub producers: u32,
    pub consumers: u32,
    pub streams: u32,
    pub topics: u32,
    pub partitions: u32,
    pub messages_per_batch: u32,
    pub message_batches: u32,
    pub message_size: u32,
}

/// What one worker reports: bytes it transferred, how long it ran, and its
/// average per-call latency in microseconds.
#[derive(Clone, Copy, Debug)]
pub struct BenchmarkResult {
    pub total_size_bytes: u64,
    pub duration_ms: u64,
    pub average_latency_us: u64,
}

/// The aggregate of one pass.  `total_duration_ms` is the sum of the
/// workers' durations, not wall clock, so a throughput derived from it
/// reflects per-worker service time rather than wall-clock concurrency.
#[derive(Clone, Copy, Debug)]
pub struct BenchmarkSummary {
    pub total_size_bytes: u128,
    pub total_duration_ms: u128,
    pub average_latency_us: u128,
}

/// The benchmark kinds `args` enables, in the order they run.
pub open spec fn spec_kinds(args: BenchmarkArgs) -> Seq<BenchmarkKind> {
    (if args.test_send_messages {
        seq![BenchmarkKind::SendMessages]
    } else {
        Seq::empty()
    }) + (if args.test_poll_messages {
        seq![BenchmarkKind::PollMessages]
    } else {
        Seq::empty()
    }) + (if args.test_send_and_poll_messages {
        seq![BenchmarkKind::SendAndPollMessages]
    } else {
        Seq::empty()
    })
}

/// The passes `args` enables: every enabled kind under every enabled
/// transport, HTTP first.
pub open spec fn spec_passes(args: BenchmarkArgs) -> Seq<(Transport, BenchmarkKind)> {
    (if args.http {
        spec_kinds(args).map_values(|k: BenchmarkKind| (Transport::Http, k))
    } else {
        Seq::empty()
    }) + (if args.quic {
        spec_kinds(args).map_values(|k: BenchmarkKind| (Transport::Quic, k))
    } else {
        Seq::empty()
    })
}

/// Total messages a pass sends: `messages_per_batch · message_batches ·
/// producers`.
pub fn total_messages(args: &BenchmarkArgs) -> (r: u64)
    requires
        args.messages_per_batch * args.message_batches * args.producers <= u64::MAX,
    ensures
        r == args.messages_per_batch * args.message_batches * args.producers,
{
    proof {
        assert((args.messages_per_batch as int) * (args.message_batches as int) <= u64::MAX)
            by (nonlinear_arith)
            requires
                args.messages_per_batch <= u32::MAX,
                args.message_batches <= u32::MAX,
        ;
    }
    let per_producer = (args.messages_per_batch as u64) * (args.message_batches as u64);
    per_producer * (args.producers as u64)
}

/// The list of (transport, kind) passes `args` enables.
pub fn passes(args: &BenchmarkArgs) -> (r: Vec<(Transport, BenchmarkKind)>)
    ensures
        r@ == spec_passes(*args),
{
    let mut out: Vec<(Transport, BenchmarkKind)> = Vec::new();
    if args.http {
        push_kinds(&mut out, args, Transport::Http);
    }
    if args.quic {
        push_kinds(&mut out, args, Transport::Quic);
    }
    proof {
        assert(out@ =~= spec_passes(*args));
    }
    out
}

/// Appends every enabled kind under `transport`.
fn push_kinds(out: &mut Vec<(Transport, BenchmarkKind)>, args: &BenchmarkArgs, transport: Transport)
    ensures
        final(out)@ == old(out)@ + spec_kinds(*args).map_values(
            |k: BenchmarkKind| (transport, k),
        ),
{
    if args.test_send_messages {
        out.push((transport, BenchmarkKind::SendMessages));
    }
    if args.test_poll_messages {
        out.push((transport, BenchmarkKind::PollMessages));
    }
    if args.test_send_and_poll_messages {
        out.push((transport, BenchmarkKind::SendAndPollMessages));
    }
    proof {
        assert(final(out)@ =~= old(out)@ + spec_kinds(*args).map_values(
            |k: BenchmarkKind| (transport, k),
        ));
    }
}

/// Round-robin routing of the `index`-th unit of work: the partition moves
/// fastest, then the topic, then the stream.
pub fn route(index: u64, streams: u32, topics: u32, partitions: u32) -> (r: (u32, u32, u32))
    requires
        streams > 0,
        topics > 0,
        partitions > 0,
    ensures
        r.2 as int == (index as int) % (partitions as int),
        r.1 as int == ((index as int) / (partitions as int)) % (topics as int),
        r.0 as int == ((index as int) / ((partitions as int) * (topics as int))) % (streams as int),
{
    let p = (index % (partitions as u64)) as u32;
    let t = ((index / (partitions as u64)) % (topics as u64)) as u32;
    proof {
        assert((partitions as int) * (topics as int) <= u64::MAX && (partitions as int) * (
        topics as int) > 0) by (nonlinear_arith)
            requires
                0 < partitions <= u32::MAX,
                0 < topics <= u32::MAX,
        ;
    }
    let fanout = (partitions as u64) * (topics as u64);
    let s = ((index / fanout) % (streams as u64)) as u32;
    (s, t, p)
}

/// Sum of the workers' transferred bytes.
pub open spec fn total_size_of(rs: Seq<BenchmarkResult>) -> int
    decreases rs.len(),
{
    if rs.len() == 0 {
        0
    } else {
        rs[0].total_size_bytes + total_size_of(rs.drop_first())
    }
}

/// Sum of the workers' durations in milliseconds.
pub open spec fn total_duration_of(rs: Seq<BenchmarkResult>) -> int
    decreases rs.len(),
{
    if rs.len() == 0 {
        0
    } else {
        rs[0].duration_ms + total_duration_of(rs.drop_first())
    }
}

/// Sum of the workers' average latencies in microseconds.
pub open spec fn latency_sum_of(rs: Seq<BenchmarkResult>) -> int
    decreases rs.len(),
{
    if rs.len() == 0 {
        0
    } else {
        rs[0].average_latency_us + latency_sum_of(rs.drop_first())
    }
}

/// Sums extend by one result at the end.
proof fn lemma_sums_push(rs: Seq<BenchmarkResult>, r: BenchmarkResult)
    ensures
        total_size_of(rs.push(r)) == total_size_of(rs) + r.total_size_bytes,
        total_duration_of(rs.push(r)) == total_duration_of(rs) + r.duration_ms,
        latency_sum_of(rs.push(r)) == latency_sum_of(rs) + r.average_latency_us,
    decreases rs.len(),
{
    if rs.len() == 0 {
        assert(rs.push(r)[0] == r);
        assert(rs.push(r).drop_first() =~= Seq::<BenchmarkResult>::empty());
        assert(total_size_of(rs.push(r)) == r.total_size_bytes + total_size_of(
            Seq::<BenchmarkResult>::empty(),
        ));
        assert(total_duration_of(rs.push(r)) == r.duration_ms + total_duration_of(
            Seq::<BenchmarkResult>::empty(),
        ));
        assert(latency_sum_of(rs.push(r)) == r.average_latency_us + latency_sum_of(
            Seq::<BenchmarkResult>::empty(),
        ));
    } else {
        lemma_sums_push(rs.drop_first(), r);
        assert(rs.push(r)[0] == rs[0]);
        assert(rs.push(r).drop_first() =~= rs.drop_first().push(r));
        assert(total_size_of(rs.push(r)) == rs[0].total_size_bytes + total_size_of(
            rs.drop_first().push(r),
        ));
        assert(total_duration_of(rs.push(r)) == rs[0].duration_ms + total_duration_of(
            rs.drop_first().push(r),
        ));
        assert(latency_sum_of(rs.push(r)) == rs[0].average_latency_us + latency_sum_of(
            rs.drop_first().push(r),
        ));
    }
}

impl BenchmarkSummary {
    /// Aggregates the workers of one pass: sums of bytes and durations, and
    /// the mean of the workers' average latencies, rounded down.
    pub fn aggregate(results: &Vec<BenchmarkResult>) -> (r: BenchmarkSummary)
        requires
            results@.len() > 0,
        ensures
            r.total_size_bytes == total_size_of(results@),
            r.total_duration_ms == total_duration_of(results@),
            r.average_latency_us == latency_sum_of(results@) / results@.len() as int,
    {
        let mut total_size_bytes: u128 = 0;
        let mut total_duration_ms: u128 = 0;
        let mut latency_sum_us: u128 = 0;
        let mut i: usize = 0;
        proof {
            assert(results@.len() == results.len());
            assert(results@.len() <= usize::MAX);
        }
        while i < results.len()
            invariant
                i <= results@.len(),
                results@.len() <= usize::MAX,
                total_size_bytes == total_size_of(results@.subrange(0, i as int)),
                total_duration_ms == total_duration_of(results@.subrange(0, i as int)),
                latency_sum_us == latency_sum_of(results@.subrange(0, i as int)),
                total_size_bytes <= i * (u64::MAX as int),
                total_duration_ms <= i * (u64::MAX as int),
                latency_sum_us <= i * (u64::MAX as int),
            decreases results@.len() - i,
        {
            proof {
                lemma_sums_push(results@.subrange(0, i as int), results@[i as int]);
                assert(results@.subrange(0, i + 1) =~= results@.subrange(0, i as int).push(
                    results@[i as int],
                ));
            }
            let r = &results[i];
            total_size_bytes = total_size_bytes + r.total_size_bytes as u128;
            total_duration_ms = total_duration_ms + r.duration_ms as u128;
            latency_sum_us = latency_sum_us + r.average_latency_us as u128;
            i = i + 1;
        }
        proof {
            assert(results@.subrange(0, results@.len() as int) =~= results@);
        }
        let average_latency_us = latency_sum_us / (results.len() as u128);
        BenchmarkSummary { total_size_bytes, total_duration_ms, average_latency_us }
    }
}

} // verus!
