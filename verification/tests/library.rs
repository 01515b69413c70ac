use pingpong::affinity::{single_cpu_set, AffinityError};
use pingpong::banner::{client_banner, server_banner, CoreReport};
use pingpong::client::{
    flush_grain, Budget, ClientConn, ConnAction, ConnEvent, ConnExit, ConnPhase, Progress, Tally,
};
use pingpong::config::{
    cpu_ids, permits_per_grain, ClientConfig, ClientConfigError, ClientPlan, ServerConfig,
    COUNT_GRAIN_PRE_SEC, PACKET_SIZE,
};
use pingpong::cores::{format_cores, parse_cores, CoresError};
use pingpong::echo::{EchoAction, EchoConn, EchoPhase};
use pingpong::text::decimal_string;

#[test]
fn parse_single_core() {
    assert_eq!(parse_cores("0"), Ok(vec![0]));
    assert_eq!(parse_cores("7"), Ok(vec![7]));
    assert_eq!(parse_cores("65535"), Ok(vec![65535]));
    assert_eq!(parse_cores("007"), Ok(vec![7]));
}

#[test]
fn parse_lists_and_ranges() {
    assert_eq!(parse_cores("0,2,4"), Ok(vec![0, 2, 4]));
    assert_eq!(parse_cores("0-3"), Ok(vec![0, 1, 2, 3]));
    assert_eq!(parse_cores("0-3,8,10-11"), Ok(vec![0, 1, 2, 3, 8, 10, 11]));
    assert_eq!(parse_cores("5-5"), Ok(vec![5]));
    assert_eq!(parse_cores("3,1,3"), Ok(vec![3, 1, 3]));
    assert_eq!(parse_cores("65534-65535").map(|v| v.len()), Ok(2));
    assert_eq!(parse_cores("0-65535").map(|v| v.len()), Ok(65536));
}

#[test]
fn parse_errors() {
    assert_eq!(parse_cores(""), Err(CoresError::EmptyItem));
    assert_eq!(parse_cores("1,"), Err(CoresError::EmptyItem));
    assert_eq!(parse_cores(",1"), Err(CoresError::EmptyItem));
    assert_eq!(parse_cores("1,,2"), Err(CoresError::EmptyItem));
    assert_eq!(parse_cores("a"), Err(CoresError::InvalidNumber));
    assert_eq!(parse_cores("1 "), Err(CoresError::InvalidNumber));
    assert_eq!(parse_cores("-3"), Err(CoresError::InvalidNumber));
    assert_eq!(parse_cores("3-"), Err(CoresError::InvalidNumber));
    assert_eq!(parse_cores("1-2-3"), Err(CoresError::InvalidNumber));
    assert_eq!(parse_cores("+1"), Err(CoresError::InvalidNumber));
    assert_eq!(parse_cores("é"), Err(CoresError::InvalidNumber));
    assert_eq!(parse_cores("65536"), Err(CoresError::OutOfRange));
    assert_eq!(parse_cores("99999999999999999999"), Err(CoresError::OutOfRange));
    assert_eq!(parse_cores("0-70000"), Err(CoresError::OutOfRange));
    assert_eq!(parse_cores("4-2"), Err(CoresError::ReversedRange));
    // the first item that cannot be read decides
    assert_eq!(parse_cores("4-2,x"), Err(CoresError::ReversedRange));
    assert_eq!(parse_cores("x,4-2"), Err(CoresError::InvalidNumber));
    assert_eq!(parse_cores("70000x"), Err(CoresError::InvalidNumber));
}

#[test]
fn format_lists() {
    assert_eq!(format_cores(&[]), "");
    assert_eq!(format_cores(&[0]), "0");
    assert_eq!(format_cores(&[0, 2, 4]), "0,2,4");
    assert_eq!(format_cores(&[65535, 10, 100]), "65535,10,100");
}

#[test]
fn format_then_parse_gives_the_list_back() {
    for cores in [vec![0u16], vec![1, 2, 3], vec![65535, 0, 7, 7], vec![10, 9, 8, 100, 1000]] {
        let text = format_cores(&cores);
        assert_eq!(parse_cores(&text), Ok(cores));
    }
}

#[test]
fn decimal_notation() {
    assert_eq!(decimal_string(0), "0");
    assert_eq!(decimal_string(9), "9");
    assert_eq!(decimal_string(10), "10");
    assert_eq!(decimal_string(1024), "1024");
    assert_eq!(decimal_string(u64::MAX), "18446744073709551615");
}

#[test]
fn server_config_from_text() {
    let cfg = ServerConfig::new("0-2,5", "0.0.0.0:40000".to_string()).unwrap();
    assert_eq!(cfg.cores, vec![0, 1, 2, 5]);
    assert_eq!(cfg.bind, "0.0.0.0:40000");
    assert_eq!(cfg.worker_cpus(), vec![0usize, 1, 2, 5]);
    assert!(!cfg.single_core());
    let one = ServerConfig::new("3", "127.0.0.1:1".to_string()).unwrap();
    assert!(one.single_core());
    assert!(matches!(
        ServerConfig::new("2-1", String::new()),
        Err(CoresError::ReversedRange)
    ));
    assert_eq!(cpu_ids(&vec![4u16, 1]), vec![4usize, 1]);
}

#[test]
fn client_plan_figures() {
    let cfg = ClientConfig::new("0,1", 150, Some(1000), "127.0.0.1:40000".to_string()).unwrap();
    assert_eq!(
        cfg.plan(),
        Ok(ClientPlan {
            conns_per_core: 150,
            global_conns: 300,
            qps_per_core: 1000,
            global_qps: 2000,
            permits_per_grain: Some(50),
        })
    );
    let unlimited = ClientConfig::new("0-3", 10, None, String::new()).unwrap();
    assert_eq!(
        unlimited.plan(),
        Ok(ClientPlan {
            conns_per_core: 10,
            global_conns: 40,
            qps_per_core: 0,
            global_qps: 0,
            permits_per_grain: None,
        })
    );
}

#[test]
fn client_plan_refuses_small_limit() {
    let low = ClientConfig::new("0", 1, Some(COUNT_GRAIN_PRE_SEC as usize - 1), String::new())
        .unwrap();
    assert_eq!(low.plan(), Err(ClientConfigError::QpsBelowGrain));
    let edge =
        ClientConfig::new("0", 1, Some(COUNT_GRAIN_PRE_SEC as usize), String::new()).unwrap();
    assert_eq!(edge.plan().unwrap().permits_per_grain, Some(1));
    assert!(matches!(
        ClientConfig::new("", 1, None, String::new()),
        Err(CoresError::EmptyItem)
    ));
}

#[test]
fn permits_per_grain_divides_by_the_grain() {
    assert_eq!(permits_per_grain(None), None);
    assert_eq!(permits_per_grain(Some(20)), Some(1));
    assert_eq!(permits_per_grain(Some(39)), Some(1));
    assert_eq!(permits_per_grain(Some(100_000)), Some(5_000));
}

#[test]
fn server_banners() {
    let cfg = ServerConfig::new("0,2", "0.0.0.0:40000".to_string()).unwrap();
    assert_eq!(
        server_banner("Monoio", &cfg, CoreReport::Slots),
        "Running ping pong server with Monoio.\nPacket size: 1024\nListen 0.0.0.0:40000\nCPU slot: 0,2"
    );
    assert_eq!(
        server_banner("Smol", &cfg, CoreReport::Count),
        "Running ping pong server with Smol.\nPacket size: 1024\nListen 0.0.0.0:40000\nCPU count: 2"
    );
    assert_eq!(
        server_banner("Tokio Uring", &cfg, CoreReport::Omitted),
        "Running ping pong server with Tokio Uring.\nPacket size: 1024\nListen 0.0.0.0:40000"
    );
    assert_eq!(PACKET_SIZE, 1024);
}

#[test]
fn client_banner_text() {
    let cfg = ClientConfig::new("1-2", 50, Some(200), "10.0.0.1:40000".to_string()).unwrap();
    let plan = cfg.plan().unwrap();
    assert_eq!(
        client_banner(&cfg, &plan),
        "Running ping pong client.\nPacket size: 1024\nConnection count per core: 50; Global connection count: 100\nQPS limit per core: 200; Global QPS limit: 400\nTarget: 10.0.0.1:40000\nCPU slot: 1,2"
    );
}

#[test]
fn tally_counts_and_flushes() {
    let mut t = Tally::new();
    assert!(t.has_room(5));
    t.record(5);
    t.record(7);
    assert_eq!(t, Tally { requests: 2, latency_us: 12 });
    let mut budget = Budget::new(Some(3));
    let f = flush_grain(&mut t, &mut budget);
    assert_eq!((f.requests, f.latency_us, f.permits), (2, 12, Some(3)));
    assert_eq!(t, Tally { requests: 0, latency_us: 0 });
    assert_eq!(budget.available(), 6);
    let mut unlimited = Budget::new(None);
    let again = flush_grain(&mut t, &mut unlimited);
    assert_eq!(unlimited.available(), 0);
    assert_eq!((again.requests, again.latency_us, again.permits), (0, 0, None));
    let full = Tally { requests: 1, latency_us: u64::MAX - 1 };
    assert!(full.has_room(1));
    assert!(!full.has_room(2));
    assert!(!Tally { requests: usize::MAX, latency_us: 0 }.has_room(0));
}

#[test]
fn limited_connection_rounds() {
    let mut tally = Tally::new();
    let (mut conn, first) = ClientConn::new(true);
    assert_eq!(first, ConnAction::AcquirePermit);
    assert!(!conn.expects(&ConnEvent::SendFailed));
    let mut budget = Budget::new(Some(2));
    // the first packet is all zeros
    let sent = match conn.on_permit(&mut budget) {
        ConnAction::SendPacket(p) => p,
        other => panic!("expected a send, got {:?}", other),
    };
    assert_eq!(sent, vec![0u8; PACKET_SIZE]);
    let buf = match conn.step(ConnEvent::Sent(sent), &mut tally) {
        ConnAction::ReceivePacket(b) => b,
        other => panic!("expected a receive, got {:?}", other),
    };
    assert_eq!(buf.len(), PACKET_SIZE);
    let reply = vec![5u8; PACKET_SIZE];
    assert_eq!(
        conn.step(ConnEvent::Received { latency_us: 40, packet: reply.clone() }, &mut tally),
        ConnAction::AcquirePermit
    );
    assert_eq!(tally, Tally { requests: 1, latency_us: 40 });
    assert_eq!(conn.phase(), ConnPhase::Acquiring);
    assert!(conn.limited());
    // the next packet is the reply last received
    assert_eq!(conn.on_permit(&mut budget), ConnAction::SendPacket(reply));
    assert_eq!(budget.available(), 0);
    assert_eq!(
        conn.step(ConnEvent::SendFailed, &mut tally),
        ConnAction::Exit(ConnExit::WriteFailed)
    );
    assert_eq!(conn.phase(), ConnPhase::Closed);
    assert!(!conn.expects(&ConnEvent::SendFailed));
    assert!(!conn.expects(&ConnEvent::ReceiveFailed));
    assert_eq!(tally.requests, 1);
}

#[test]
fn unlimited_connection_rounds() {
    let mut tally = Tally::new();
    let (mut conn, first) = ClientConn::new(false);
    assert_eq!(first, ConnAction::SendPacket(vec![0u8; PACKET_SIZE]));
    let buf = match conn.step(ConnEvent::Sent(vec![0u8; PACKET_SIZE]), &mut tally) {
        ConnAction::ReceivePacket(b) => b,
        other => panic!("expected a receive, got {:?}", other),
    };
    let mut reply = buf;
    reply[0] = 9;
    assert!(!conn.expects(&ConnEvent::Received { latency_us: 3, packet: vec![1, 2] }));
    assert_eq!(
        conn.step(ConnEvent::Received { latency_us: 3, packet: reply.clone() }, &mut tally),
        ConnAction::SendPacket(reply)
    );
    conn.step(ConnEvent::Sent(vec![0u8; PACKET_SIZE]), &mut tally);
    assert_eq!(
        conn.step(ConnEvent::ReceiveFailed, &mut tally),
        ConnAction::Exit(ConnExit::ReadFailed)
    );
    assert_eq!(tally, Tally { requests: 1, latency_us: 3 });
}

#[test]
fn exit_messages() {
    assert_eq!(ConnExit::WriteFailed.message(), "Write failed, connection exit");
    assert_eq!(ConnExit::ReadFailed.message(), "Read failed, connection exit");
}

#[test]
fn progress_reports_increments() {
    let mut p = Progress::new();
    assert_eq!(p.observe(10), 10);
    assert_eq!(p.observe(25), 15);
    assert_eq!(p.observe(25), 0);
    assert_eq!(p.last_total, 25);
}

#[test]
fn echo_writes_back_what_it_read() {
    let (mut conn, first) = EchoConn::new();
    let buf = match first {
        EchoAction::Read(b) => b,
        _ => panic!("a new connection reads first"),
    };
    assert_eq!(buf, vec![0u8; PACKET_SIZE]);
    let packet: Vec<u8> = (0..PACKET_SIZE).map(|i| (i % 251) as u8).collect();
    let out = match conn.on_read(true, packet.clone()) {
        EchoAction::Write(b) => b,
        _ => panic!("a read packet is written back"),
    };
    assert_eq!(out, packet);
    assert_eq!(conn.phase(), EchoPhase::Writing);
    let next = match conn.on_written(true, out) {
        EchoAction::Read(b) => b,
        _ => panic!("after a write comes a read"),
    };
    assert_eq!(next.len(), PACKET_SIZE);
    assert!(matches!(conn.on_read(false, next), EchoAction::Close));
    assert_eq!(conn.phase(), EchoPhase::Closed);
}

#[test]
fn echo_closes_on_failed_write() {
    let (mut conn, _) = EchoConn::new();
    let out = match conn.on_read(true, vec![7u8; PACKET_SIZE]) {
        EchoAction::Write(b) => b,
        _ => panic!("a read packet is written back"),
    };
    assert!(matches!(conn.on_written(false, out), EchoAction::Close));
    assert_eq!(conn.phase(), EchoPhase::Closed);
}

#[test]
fn cpu_set_of_one_cpu() {
    let set = single_cpu_set(3).unwrap();
    assert_eq!(set.is_set(3), Ok(true));
    assert_eq!(set.is_set(2), Ok(false));
    assert_eq!(set.is_set(0), Ok(false));
    let cap = nix::sched::CpuSet::count();
    assert_eq!(
        single_cpu_set(cap).map(|_| ()),
        Err(AffinityError::CpuOutOfRange { cpu: cap, capacity: cap })
    );
    assert!(single_cpu_set(cap - 1).unwrap().is_set(cap - 1).unwrap());
}

#[test]
fn budget_per_second_stays_within_limit() {
    let grain = COUNT_GRAIN_PRE_SEC as usize;
    for qps in [20usize, 21, 39, 40, 999, 1000, 123_456] {
        let per_grain = permits_per_grain(Some(qps)).unwrap();
        assert!(per_grain * grain <= qps);
        assert!(qps < per_grain * grain + grain);
    }
}

#[test]
fn parsed_core_lists_are_never_empty() {
    for text in ["0", "1-1", "0,0", "3-5,1"] {
        assert!(!parse_cores(text).unwrap().is_empty());
    }
}

#[test]
fn report_increments_add_up_to_the_total() {
    let mut p = Progress::new();
    let mut sum = 0;
    for total in [3usize, 3, 10, 42, 100] {
        sum += p.observe(total);
        assert_eq!(sum, total);
    }
}

#[test]
fn budget_grows_by_one_grain_per_tick() {
    let per_grain = permits_per_grain(Some(100)).unwrap();
    let mut tally = Tally::new();
    let mut budget = Budget::new(Some(per_grain));
    let (mut conn, _) = ClientConn::new(true);
    let mut granted = per_grain;
    let mut sends = 0;
    for tick in 1..=7usize {
        // spend what is there, one permit per send
        while budget.available() > 0 {
            match conn.on_permit(&mut budget) {
                ConnAction::SendPacket(p) => {
                    sends += 1;
                    conn.step(ConnEvent::Sent(p), &mut tally);
                    conn.step(
                        ConnEvent::Received { latency_us: 1, packet: vec![0u8; PACKET_SIZE] },
                        &mut tally,
                    );
                }
                other => panic!("expected a send, got {:?}", other),
            }
        }
        assert!(sends <= per_grain * tick);
        let flush = flush_grain(&mut tally, &mut budget);
        granted += flush.permits.unwrap();
        assert_eq!(granted, per_grain * (tick + 1));
    }
}

#[test]
fn flushed_plus_held_is_everything_counted() {
    let mut tally = Tally::new();
    let (mut flushed_n, mut flushed_l) = (0usize, 0u64);
    let (mut all_n, mut all_l) = (0usize, 0u64);
    for (i, lat) in [4u64, 9, 1, 30, 2, 2].iter().enumerate() {
        tally.record(*lat);
        all_n += 1;
        all_l += lat;
        if i % 2 == 1 {
            let f = flush_grain(&mut tally, &mut Budget::new(None));
            flushed_n += f.requests;
            flushed_l += f.latency_us;
        }
        assert_eq!(flushed_n + tally.requests, all_n);
        assert_eq!(flushed_l + tally.latency_us, all_l);
    }
}

#[test]
fn short_reads_echo_the_whole_buffer() {
    let (mut conn, first) = EchoConn::new();
    let mut buf = match first {
        EchoAction::Read(b) => b,
        _ => panic!("a new connection reads first"),
    };
    buf[0] = 1;
    buf[1] = 2;
    let out = match conn.on_read_some(Some(2), buf.clone()) {
        EchoAction::Write(b) => b,
        _ => panic!("a read buffer is written back"),
    };
    assert_eq!(out, buf);
    assert_eq!(conn.phase(), EchoPhase::Writing);
    let next = match conn.on_written(true, out) {
        EchoAction::Read(b) => b,
        _ => panic!("after a write comes a read"),
    };
    assert!(matches!(conn.on_read_some(None, next), EchoAction::Close));
    assert_eq!(conn.phase(), EchoPhase::Closed);
}

#[test]
fn grain_period_is_a_twentieth_of_a_second() {
    assert_eq!(pingpong::config::grain_period_nanos(), 50_000_000);
    assert_eq!(
        std::time::Duration::from_nanos(pingpong::config::grain_period_nanos()),
        std::time::Duration::from_secs(1) / COUNT_GRAIN_PRE_SEC
    );
}
