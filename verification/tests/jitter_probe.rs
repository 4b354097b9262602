use elysium::jitter_probe::{probe_time, JitterStats, ProbeEngine, PROBE_REQ, PROBE_RESP};

const PROBE_MAGIC: [u8; 4] = [0x45, 0x4C, 0x50, 0x52];

#[test]
fn test_probe_roundtrip_metrics() {
    let mut sender = ProbeEngine::new();
    let receiver = ProbeEngine::new();

    let req = sender.build_probe_request();
    assert_eq!(&req[0..4], &PROBE_MAGIC);
    assert_eq!(req[4], PROBE_REQ);

    let resp = receiver.build_probe_response(&req);
    assert!(resp.is_some());
    let resp_bytes = resp.unwrap();
    assert_eq!(resp_bytes[4], PROBE_RESP);

    let stats = sender.handle_probe_response(&resp_bytes);
    assert!(stats.is_some());
    let s = stats.unwrap();
    assert!(s.rtt_tenths_ms as f64 / 10.0 >= 0.0);
    assert!(s.jitter_tenths_ms as f64 / 10.0 >= 0.0);
    assert_eq!(s.packet_loss_tenths_pct as f64 / 10.0, 0.0);
}

#[test]
fn requests_byte_by_byte() {
    let mut engine = ProbeEngine::new();
    let mut expected = vec![0x45, 0x4C, 0x50, 0x52, 1, 0, 0, 0, 0, 0, 0, 1, 0, 0, 0, 0];
    expected.extend_from_slice(&0x0102_0304_0506_0708u64.to_be_bytes());
    expected.extend_from_slice(&[0; 8]);
    assert_eq!(engine.request_at(0x0102_0304_0506_0708).to_vec(), expected);
    assert_eq!(&engine.request_at(0)[8..12], &2u32.to_be_bytes());
}

#[test]
fn responses_byte_by_byte() {
    let mut engine = ProbeEngine::new();
    let mut request = engine.request_at(77);
    request[5] = 9;
    request[13] = 9;
    request[30] = 9;
    let response = ProbeEngine::response_at(&request, 0xFFFF_0000).unwrap();
    let mut expected = vec![0x45, 0x4C, 0x50, 0x52, 2, 0, 0, 0, 0, 0, 0, 1, 0, 0, 0, 0];
    expected.extend_from_slice(&77u64.to_be_bytes());
    expected.extend_from_slice(&0xFFFF_0000u64.to_be_bytes());
    assert_eq!(response.to_vec(), expected);
    assert!(ProbeEngine::response_at(&request[..31], 0).is_none());
    assert!(ProbeEngine::response_at(&response, 0).is_none());
    request[3] = 0;
    assert!(ProbeEngine::response_at(&request, 0).is_none());
}

#[test]
fn round_trips_and_jitter() {
    let mut engine = ProbeEngine::new();
    let request = engine.request_at(1_000_000);
    let response = ProbeEngine::response_at(&request, 5).unwrap();
    // 24.35 ms, rounded up from the middle.
    let stats = engine.response_handled_at(&response, 25_350_000).unwrap();
    assert_eq!(
        stats,
        JitterStats { rtt_tenths_ms: 244, jitter_tenths_ms: 0, packet_loss_tenths_pct: 0 }
    );
    // 8 ms more: the jitter is half a millisecond.
    let stats = engine.response_handled_at(&response, 33_350_000).unwrap();
    assert_eq!(stats.rtt_tenths_ms, 324);
    assert_eq!(stats.jitter_tenths_ms, 5);
    // No change: it fades to 0.46875 ms, 0.439... and so on.
    for expected in [5, 4, 4, 4, 4, 3] {
        let stats = engine.response_handled_at(&response, 33_350_000).unwrap();
        assert_eq!(stats.jitter_tenths_ms, expected);
    }
}

#[test]
fn a_clock_that_runs_back_counts_as_nothing() {
    let mut engine = ProbeEngine::new();
    let request = engine.request_at(1_000_000_000);
    let response = ProbeEngine::response_at(&request, 5).unwrap();
    let stats = engine.response_handled_at(&response, 0).unwrap();
    assert_eq!(stats.rtt_tenths_ms, 0);
    // The longest time of all.
    let request = engine.request_at(0);
    let response = ProbeEngine::response_at(&request, 5).unwrap();
    let stats = engine.response_handled_at(&response, u64::MAX).unwrap();
    assert_eq!(stats.rtt_tenths_ms, 184_467_440_737_096);
}

#[test]
fn times_of_probes() {
    assert_eq!(probe_time(77), 77);
    assert_eq!(probe_time(u64::MAX as u128), u64::MAX);
    assert_eq!(probe_time(u64::MAX as u128 + 6), 5);
}

#[test]
fn what_is_no_response() {
    let mut engine = ProbeEngine::new();
    let request = engine.build_probe_request();
    assert!(engine.handle_probe_response(&request).is_none());
    assert!(engine.handle_probe_response(&[]).is_none());
}

/// What the engine says after the answer to one of its requests.
fn answer(engine: &mut ProbeEngine, request: &[u8; 32]) -> u64 {
    let response = ProbeEngine::response_at(request, 5).unwrap();
    engine.response_handled_at(&response, 10).unwrap().packet_loss_tenths_pct as u64
}

#[test]
fn unanswered_requests_count_as_lost() {
    let mut engine = ProbeEngine::new();
    let requests: Vec<[u8; 32]> = (0..64).map(|_| engine.request_at(0)).collect();
    assert_eq!(&requests[63][8..12], &64u32.to_be_bytes());
    // 63 of 64 are lost: 98.4375 percent.
    assert_eq!(answer(&mut engine, &requests[63]), 984);
    // Half of them come late.
    for request in requests.iter().take(31) {
        answer(&mut engine, request);
    }
    assert_eq!(answer(&mut engine, &requests[0]), 500);
    for request in requests.iter().skip(31).take(31) {
        answer(&mut engine, request);
    }
    assert_eq!(answer(&mut engine, &requests[62]), 0);
}

#[test]
fn answers_in_turn_tell_no_loss() {
    let mut engine = ProbeEngine::new();
    for _ in 0..200 {
        let request = engine.request_at(0);
        assert_eq!(answer(&mut engine, &request), 0);
        // The same answer once more changes nothing.
        assert_eq!(answer(&mut engine, &request), 0);
    }
    // One request is skipped: one of 64 is lost, until 64 more have been answered.
    engine.request_at(0);
    for _ in 0..63 {
        let request = engine.request_at(0);
        assert_eq!(answer(&mut engine, &request), 16);
    }
    let request = engine.request_at(0);
    assert_eq!(answer(&mut engine, &request), 0);
}

#[test]
fn answers_that_come_too_late_change_nothing() {
    let mut engine = ProbeEngine::new();
    let first = engine.request_at(0);
    for _ in 0..63 {
        engine.request_at(0);
    }
    let later = engine.request_at(0);
    assert_eq!(answer(&mut engine, &later), 984);
    assert_eq!(answer(&mut engine, &first), 984);
}

#[test]
fn requests_are_numbered_and_timed() {
    let mut engine = ProbeEngine::new();
    let mut last = 0;
    for n in 1..100u32 {
        let request = engine.build_probe_request();
        assert_eq!(&request[8..12], &n.to_be_bytes());
        let sent = u64::from_be_bytes(request[16..24].try_into().unwrap());
        assert!(sent >= last);
        last = sent;
        assert_eq!(&request[5..8], &[0; 3]);
        assert_eq!(&request[12..16], &[0; 4]);
        assert_eq!(&request[24..32], &[0; 8]);
    }
}
