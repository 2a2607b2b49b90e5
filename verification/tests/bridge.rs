use titan::bridge::{
    flow_key, flow_source, inspect_limit, inspection_done, seen_flows_overflow, tcp_after_read, tcp_expired, tcp_forwarded, tcp_opened, tcp_step,
    udp_expired, udp_route, udp_unreachable_reply, ReadOutcome, TcpFlow, TcpSegment, TcpState, TcpStep, UdpRoute,
};

fn seg(syn: bool, ack: bool, fin: bool, rst: bool, seq: Option<u32>, payload_len: usize) -> TcpSegment {
    TcpSegment { syn, ack, fin, rst, seq, payload_len }
}

fn opened() -> TcpFlow {
    tcp_opened(&seg(true, false, false, false, Some(1000), 0), u32::MAX)
}

#[test]
fn opening_a_flow() {
    assert!(matches!(tcp_step(None, &seg(true, false, false, false, Some(1000), 0)), TcpStep::Open));
    assert!(matches!(tcp_step(None, &seg(false, true, false, false, Some(1000), 0)), TcpStep::AwaitSyn));
    assert!(matches!(tcp_step(None, &seg(false, true, true, false, Some(1000), 0)), TcpStep::Ignored));
    let f = opened();
    assert_eq!(f.syn_seq, u32::MAX);
    assert_eq!(f.server_seq, 0);
    assert_eq!(f.client_next_seq, 1001);
    assert_eq!(f.state, TcpState::SynAckSent);
    let no_seq = tcp_opened(&seg(true, false, false, false, None, 0), 5);
    assert_eq!((no_seq.server_seq, no_seq.client_next_seq), (6, 1));
}

#[test]
fn handshake_and_relay() {
    let f = opened();
    match tcp_step(Some(f), &seg(true, false, false, false, Some(1000), 0)) {
        TcpStep::ResendSynAck { flow } => assert_eq!(flow, f),
        other => panic!("unexpected {:?}", other),
    }
    let established = match tcp_step(Some(f), &seg(false, true, false, false, Some(1001), 0)) {
        TcpStep::Held { flow } => flow,
        other => panic!("unexpected {:?}", other),
    };
    assert_eq!(established.state, TcpState::Established);
    assert_eq!(established.client_next_seq, 1001);
    let data = seg(false, true, false, false, Some(1001), 300);
    let flow = match tcp_step(Some(established), &data) {
        TcpStep::Forward { flow } => flow,
        other => panic!("unexpected {:?}", other),
    };
    let after = tcp_forwarded(flow, &data);
    assert_eq!(after.uploaded, 300);
    assert_eq!(after.client_next_seq, 1301);
    let wrapping = tcp_forwarded(flow, &seg(false, true, false, false, Some(u32::MAX - 1), 4));
    assert_eq!(wrapping.client_next_seq, 2);
}

#[test]
fn closing_a_flow() {
    let f = opened();
    match tcp_step(Some(f), &seg(false, true, true, false, Some(1001), 0)) {
        TcpStep::Closed { fin } => assert_eq!(fin, Some((f.server_seq, f.client_next_seq))),
        other => panic!("unexpected {:?}", other),
    }
    match tcp_step(Some(f), &seg(false, false, false, true, None, 0)) {
        TcpStep::Closed { fin } => assert_eq!(fin, None),
        other => panic!("unexpected {:?}", other),
    }
    let finished = tcp_after_read(f, ReadOutcome::Closed, true).unwrap();
    assert_eq!(finished.state, TcpState::FinSent);
    assert_eq!(finished.server_seq, 1);
    match tcp_step(Some(finished), &seg(false, true, false, false, Some(1001), 0)) {
        TcpStep::Closed { fin } => assert_eq!(fin, None),
        other => panic!("unexpected {:?}", other),
    }
    match tcp_step(Some(finished), &seg(false, true, true, false, Some(1001), 0)) {
        TcpStep::Closed { fin } => assert_eq!(fin, None),
        other => panic!("unexpected {:?}", other),
    }
}

#[test]
fn reads_from_the_outbound_side() {
    let f = opened();
    let g = tcp_after_read(f, ReadOutcome::Data(100), false).unwrap();
    assert_eq!((g.server_seq, g.downloaded, g.state), (100, 100, TcpState::Established));
    let h = tcp_after_read(g, ReadOutcome::Data(50), false).unwrap();
    assert_eq!((h.server_seq, h.downloaded), (150, 150));
    assert_eq!(tcp_after_read(h, ReadOutcome::Pending, false), Some(h));
    assert_eq!(tcp_after_read(h, ReadOutcome::Failed, false), None);
    let unsent = tcp_after_read(h, ReadOutcome::Closed, false).unwrap();
    assert_eq!(unsent.server_seq, 150);
}

#[test]
fn idle_limits() {
    assert!(!tcp_expired(TcpState::SynAckSent, 10_000_000_000));
    assert!(tcp_expired(TcpState::SynAckSent, 10_000_000_001));
    assert!(!tcp_expired(TcpState::Established, 119_000_000_000));
    assert!(tcp_expired(TcpState::FinSent, 6_000_000_000));
    assert!(udp_expired(30_000_000_001));
    assert!(!udp_expired(30_000_000_000));
}

#[test]
fn udp_routes() {
    assert_eq!(udp_route(0, 4, true, true), UdpRoute::Empty);
    assert_eq!(udp_route(10, 5, true, false), UdpRoute::UnhandledVersion);
    assert_eq!(udp_route(10, 6, true, true), UdpRoute::Dns);
    assert_eq!(udp_route(10, 4, false, true), UdpRoute::LocalMulticast);
    assert_eq!(udp_route(10, 4, false, false), UdpRoute::Relay);
    assert!(udp_unreachable_reply("auto", "no UDP-capable outbound remained for auto"));
    assert!(udp_unreachable_reply("auto", "UDP is not supported by node-a"));
    assert!(!udp_unreachable_reply("direct", "UDP is not supported"));
    assert!(!udp_unreachable_reply("auto", "connection refused"));
}

#[test]
fn flow_keys() {
    assert_eq!(
        flow_key("TCP", "10.0.0.2", Some(5000), "1.1.1.1", Some(443)),
        "TCP 10.0.0.2:5000 -> 1.1.1.1:443"
    );
    assert_eq!(flow_key("ICMP", "10.0.0.2", None, "1.1.1.1", None), "ICMP 10.0.0.2 -> 1.1.1.1");
    assert_eq!(flow_source("10.0.0.2", Some(5000)), "10.0.0.2:5000");
    assert_eq!(flow_source("10.0.0.2", None), "10.0.0.2");
    assert_eq!(inspect_limit(None), None);
    assert_eq!(inspect_limit(Some(0)), Some(1));
    assert_eq!(inspect_limit(Some(50_000)), Some(10_000));
}

#[test]
fn inspection_limits() {
    assert!(!seen_flows_overflow(4096));
    assert!(seen_flows_overflow(4097));
    assert!(!inspection_done(5, None));
    assert!(!inspection_done(4, Some(5)));
    assert!(inspection_done(5, Some(5)));
}
