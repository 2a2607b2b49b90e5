//! The decisions of the TUN bridge. Each relayed TCP flow is a small state
//! machine over its sequence numbers: a segment from the client, or what a
//! read from the outbound stream gave, leads to the flow's next state and
//! to what is sent back. The caller does the packet and stream work and
//! hands back what happened.
use vstd::prelude::*;

use crate::target::host_port;
use crate::text::{chars_of, chars_start_with, eq_ignore_ascii_case, eq_ignore_case, push_str, starts_with};

verus! {

/// Where a relayed TCP connection stands.
#[derive(Debug, Clone, Copy, PartialEq, Eq, Structural)]
pub enum TcpState {
    /// The SYN-ACK has been sent; the client has not acknowledged it.
    SynAckSent,
    Established,
    /// The outbound side closed and a FIN has gone to the client.
    FinSent,
}

/// The numbers of a relayed TCP connection.
#[derive(Debug, Clone, Copy, PartialEq, Eq, Structural)]
pub struct TcpFlow {
    /// The sequence number of the SYN-ACK.
    pub syn_seq: u32,
    /// The next sequence number sent to the client.
    pub server_seq: u32,
    /// The next sequence number expected from the client.
    pub client_next_seq: u32,
    pub uploaded: u64,
    pub downloaded: u64,
    pub state: TcpState,
}

/// What a TCP segment from the client carries.
#[derive(Debug, Clone, Copy)]
pub struct TcpSegment {
    pub syn: bool,
    pub ack: bool,
    pub fin: bool,
    pub rst: bool,
    pub seq: Option<u32>,
    pub payload_len: usize,
}

/// What a segment leads to.
#[derive(Debug)]
pub enum TcpStep {
    /// A closing segment of a flow that is not held: nothing happens.
    Ignored,
    /// A segment other than a SYN of a flow that is not held.
    AwaitSyn,
    /// A SYN of a new flow: connect outbound, then `tcp_opened`.
    Open,
    /// The flow ends and its session is closed; `fin` is the sequence and
    /// acknowledgement numbers of a FIN to send the client.
    Closed { fin: Option<(u32, u32)> },
    /// A repeated SYN before the handshake completed: send the SYN-ACK of
    /// the flow again.
    ResendSynAck { flow: TcpFlow },
    /// Payload to relay: write it outbound, then `tcp_forwarded`.
    Forward { flow: TcpFlow },
    /// Nothing to send; the flow as it now stands.
    Held { flow: TcpFlow },
}

/// A number taken modulo 2^32, as sequence numbers are.
pub open spec fn wrap32(x: int) -> u32 {
    (x % 0x1_0000_0000) as u32
}

/// The sequence space a segment takes: its payload, and one for each of
/// SYN and FIN.
pub open spec fn seg_space(seg: TcpSegment) -> int {
    seg.payload_len + (if seg.fin { 1int } else { 0 }) + (if seg.syn { 1int } else { 0 })
}

/// The next sequence number expected after a segment, counted from the
/// segment's own number or, when it carries none, from `fallback`.
pub open spec fn next_client_seq(seg: TcpSegment, fallback: u32) -> u32 {
    wrap32(
        match seg.seq {
            Some(s) => s as int,
            None => fallback as int,
        } + seg_space(seg),
    )
}

pub open spec fn with_state(f: TcpFlow, s: TcpState) -> TcpFlow {
    TcpFlow { state: s, ..f }
}

/// The state after a segment: an acknowledgement completes the handshake.
pub open spec fn acked_state(f: TcpFlow, seg: TcpSegment) -> TcpState {
    if f.state == TcpState::SynAckSent && seg.ack {
        TcpState::Established
    } else {
        f.state
    }
}

/// What a segment from the client leads to, for the flow that is held for
/// it, if any.
pub open spec fn spec_tcp_step(held: Option<TcpFlow>, seg: TcpSegment) -> TcpStep {
    if seg.fin || seg.rst {
        match held {
            None => TcpStep::Ignored,
            Some(f) => TcpStep::Closed {
                fin: if seg.rst || f.state == TcpState::FinSent {
                    None
                } else {
                    Some((f.server_seq, f.client_next_seq))
                },
            },
        }
    } else {
        match held {
            None => if seg.syn {
                TcpStep::Open
            } else {
                TcpStep::AwaitSyn
            },
            Some(f) => if f.state == TcpState::SynAckSent && seg.syn && !seg.ack {
                TcpStep::ResendSynAck { flow: f }
            } else {
                let s = acked_state(f, seg);
                if s == TcpState::FinSent && seg.ack && seg.payload_len == 0 {
                    TcpStep::Closed { fin: None }
                } else if seg.payload_len > 0 {
                    TcpStep::Forward { flow: with_state(f, s) }
                } else {
                    TcpStep::Held {
                        flow: TcpFlow {
                            state: s,
                            client_next_seq: match seg.seq {
                                Some(_) => next_client_seq(seg, f.client_next_seq),
                                None => f.client_next_seq,
                            },
                            ..f
                        },
                    }
                }
            },
        }
    }
}

/// `wrap32(base + extra)`.
fn add_wrapping(base: u32, extra: u64) -> (r: u32)
    ensures
        r == wrap32(base + extra),
{
    let total: u128 = base as u128 + extra as u128;
    (total % 0x1_0000_0000) as u32
}

fn next_seq(seg: &TcpSegment, fallback: u32) -> (r: u32)
    ensures
        r == next_client_seq(*seg, fallback),
{
    let base = match seg.seq {
        Some(s) => s,
        None => fallback,
    };
    let flags: u64 = (if seg.fin { 1u64 } else { 0 }) + (if seg.syn { 1u64 } else { 0 });
    let space: u128 = seg.payload_len as u128 + flags as u128;
    let total: u128 = base as u128 + space;
    (total % 0x1_0000_0000) as u32
}

/// What a segment from the client leads to, given the flow held for it.
pub fn tcp_step(held: Option<TcpFlow>, seg: &TcpSegment) -> (r: TcpStep)
    ensures
        r == spec_tcp_step(held, *seg),
{
    if seg.fin || seg.rst {
        return match held {
            None => TcpStep::Ignored,
            Some(f) => TcpStep::Closed {
                fin: if seg.rst || f.state == TcpState::FinSent {
                    None
                } else {
                    Some((f.server_seq, f.client_next_seq))
                },
            },
        };
    }
    let f = match held {
        None => {
            return if seg.syn {
                TcpStep::Open
            } else {
                TcpStep::AwaitSyn
            };
        },
        Some(f) => f,
    };
    if f.state == TcpState::SynAckSent && seg.syn && !seg.ack {
        return TcpStep::ResendSynAck { flow: f };
    }
    let s = if f.state == TcpState::SynAckSent && seg.ack {
        TcpState::Established
    } else {
        f.state
    };
    if s == TcpState::FinSent && seg.ack && seg.payload_len == 0 {
        return TcpStep::Closed { fin: None };
    }
    if seg.payload_len > 0 {
        return TcpStep::Forward { flow: TcpFlow { state: s, ..f } };
    }
    let cns = match seg.seq {
        Some(_) => next_seq(seg, f.client_next_seq),
        None => f.client_next_seq,
    };
    TcpStep::Held { flow: TcpFlow { state: s, client_next_seq: cns, ..f } }
}

/// The flow after its payload was written outbound: the bytes are counted
/// and the client's next sequence number moves past the segment. The
/// acknowledgement sent back carries the result's `server_seq` and
/// `client_next_seq`.
pub open spec fn spec_forwarded(f: TcpFlow, seg: TcpSegment) -> TcpFlow {
    TcpFlow {
        uploaded: (f.uploaded + seg.payload_len) as u64,
        client_next_seq: next_client_seq(seg, f.client_next_seq),
        ..f
    }
}

pub fn tcp_forwarded(flow: TcpFlow, seg: &TcpSegment) -> (r: TcpFlow)
    requires
        flow.uploaded + seg.payload_len <= u64::MAX,
    ensures
        r == spec_forwarded(flow, *seg),
{
    TcpFlow {
        uploaded: flow.uploaded + seg.payload_len as u64,
        client_next_seq: next_seq(seg, flow.client_next_seq),
        ..flow
    }
}

/// A new flow for a SYN, once the outbound connection is made: the SYN-ACK
/// goes out with `server_seq`, after which the next number sent is one
/// more, and the client's next number is one past its SYN.
pub open spec fn spec_opened(seg: TcpSegment, server_seq: u32) -> TcpFlow {
    TcpFlow {
        syn_seq: server_seq,
        server_seq: wrap32(server_seq + 1),
        client_next_seq: wrap32(
            match seg.seq {
                Some(s) => s as int,
                None => 0,
            } + 1,
        ),
        uploaded: 0,
        downloaded: 0,
        state: TcpState::SynAckSent,
    }
}

pub fn tcp_opened(seg: &TcpSegment, server_seq: u32) -> (r: TcpFlow)
    ensures
        r == spec_opened(*seg, server_seq),
{
    let base = match seg.seq {
        Some(s) => s,
        None => 0,
    };
    TcpFlow {
        syn_seq: server_seq,
        server_seq: add_wrapping(server_seq, 1),
        client_next_seq: add_wrapping(base, 1),
        uploaded: 0,
        downloaded: 0,
        state: TcpState::SynAckSent,
    }
}

/// What a read from the outbound stream gave.
#[derive(Debug, Clone, Copy, PartialEq, Eq, Structural)]
pub enum ReadOutcome {
    /// The stream ended.
    Closed,
    /// This many bytes arrived (more than zero); a data packet carrying
    /// them goes to the client with the flow's `server_seq` before the read.
    Data(usize),
    /// The read failed: the flow is dropped and its session closed.
    Failed,
    /// Nothing arrived in time.
    Pending,
}

/// The flow after a read: an end of stream sends a FIN (which takes one
/// number, when it could be sent) and enters `FinSent`; data moves the
/// sequence number on by its length and completes the handshake; a failure
/// drops the flow.
pub open spec fn spec_after_read(f: TcpFlow, outcome: ReadOutcome, fin_sent: bool) -> Option<TcpFlow> {
    match outcome {
        ReadOutcome::Closed => Some(
            TcpFlow {
                server_seq: if fin_sent {
                    wrap32(f.server_seq + 1)
                } else {
                    f.server_seq
                },
                state: TcpState::FinSent,
                ..f
            },
        ),
        ReadOutcome::Data(n) => Some(
            TcpFlow {
                server_seq: wrap32(f.server_seq + n),
                downloaded: (f.downloaded + n) as u64,
                state: if f.state == TcpState::SynAckSent {
                    TcpState::Established
                } else {
                    f.state
                },
                ..f
            },
        ),
        ReadOutcome::Failed => None,
        ReadOutcome::Pending => Some(f),
    }
}

pub fn tcp_after_read(flow: TcpFlow, outcome: ReadOutcome, fin_sent: bool) -> (r: Option<TcpFlow>)
    requires
        outcome matches ReadOutcome::Data(n) ==> flow.downloaded + n <= u64::MAX,
    ensures
        r == spec_after_read(flow, outcome, fin_sent),
{
    match outcome {
        ReadOutcome::Closed => Some(
            TcpFlow {
                server_seq: if fin_sent {
                    add_wrapping(flow.server_seq, 1)
                } else {
                    flow.server_seq
                },
                state: TcpState::FinSent,
                ..flow
            },
        ),
        ReadOutcome::Data(n) => Some(
            TcpFlow {
                server_seq: add_wrapping(flow.server_seq, n as u64),
                downloaded: flow.downloaded + n as u64,
                state: if flow.state == TcpState::SynAckSent {
                    TcpState::Established
                } else {
                    flow.state
                },
                ..flow
            },
        ),
        ReadOutcome::Failed => None,
        ReadOutcome::Pending => Some(flow),
    }
}

/// How long a flow may stay idle, in nanoseconds: 10 s until the
/// handshake completes, 120 s while established, 5 s after a FIN.
pub open spec fn spec_idle_limit(s: TcpState) -> u128 {
    match s {
        TcpState::SynAckSent => 10_000_000_000,
        TcpState::Established => 120_000_000_000,
        TcpState::FinSent => 5_000_000_000,
    }
}

/// Whether a flow idle for `idle_nanos` is dropped.
pub fn tcp_expired(state: TcpState, idle_nanos: u128) -> (r: bool)
    ensures
        r == (idle_nanos > spec_idle_limit(state)),
{
    let limit: u128 = match state {
        TcpState::SynAckSent => 10_000_000_000,
        TcpState::Established => 120_000_000_000,
        TcpState::FinSent => 5_000_000_000,
    };
    idle_nanos > limit
}

/// Whether a UDP flow idle for `idle_nanos` is dropped: after 30 s.
pub fn udp_expired(idle_nanos: u128) -> (r: bool)
    ensures
        r == (idle_nanos > 30_000_000_000),
{
    idle_nanos > 30_000_000_000
}

/// What is done with a UDP packet from the client.
#[derive(Debug, Clone, Copy, PartialEq, Eq, Structural)]
pub enum UdpRoute {
    /// No payload: dropped.
    Empty,
    /// Neither IPv4 nor IPv6: dropped.
    UnhandledVersion,
    /// A DNS query the device answers itself.
    Dns,
    /// Local multicast or broadcast: dropped.
    LocalMulticast,
    /// Relayed through the policy's outbound.
    Relay,
}

/// The route of a UDP packet, checked in this order: empty, IP version,
/// DNS hijack, local multicast.
pub fn udp_route(payload_len: usize, version: u8, hijack_dns: bool, multicast: bool) -> (r: UdpRoute)
    ensures
        r == if payload_len == 0 {
            UdpRoute::Empty
        } else if version != 4 && version != 6 {
            UdpRoute::UnhandledVersion
        } else if hijack_dns {
            UdpRoute::Dns
        } else if multicast {
            UdpRoute::LocalMulticast
        } else {
            UdpRoute::Relay
        },
{
    if payload_len == 0 {
        UdpRoute::Empty
    } else if version != 4 && version != 6 {
        UdpRoute::UnhandledVersion
    } else if hijack_dns {
        UdpRoute::Dns
    } else if multicast {
        UdpRoute::LocalMulticast
    } else {
        UdpRoute::Relay
    }
}

/// Whether a failed UDP connection is answered with ICMP port unreachable:
/// not under `DIRECT`, and only when no outbound could carry UDP.
pub fn udp_unreachable_reply(policy: &str, connect_error: &str) -> (r: bool)
    ensures
        r == (!eq_ignore_case(policy@, "DIRECT"@) && (starts_with(connect_error@, "no UDP-capable outbound remained"@)
            || starts_with(connect_error@, "UDP is not supported"@))),
{
    if eq_ignore_ascii_case(policy, "DIRECT") {
        return false;
    }
    let e = chars_of(connect_error);
    let a = chars_of("no UDP-capable outbound remained");
    let b = chars_of("UDP is not supported");
    chars_start_with(e.as_slice(), a.as_slice()) || chars_start_with(e.as_slice(), b.as_slice())
}

/// The key of a flow: protocol, source and destination, with ports when
/// the packet has both.
pub open spec fn spec_flow_key(
    protocol: Seq<char>,
    src_ip: Seq<char>,
    src_port: Option<u16>,
    dst_ip: Seq<char>,
    dst_port: Option<u16>,
) -> Seq<char> {
    match (src_port, dst_port) {
        (Some(sp), Some(dp)) => protocol + " "@ + host_port(src_ip, sp) + " -> "@ + host_port(dst_ip, dp),
        _ => protocol + " "@ + src_ip + " -> "@ + dst_ip,
    }
}

fn push_host_port(s: &mut String, host: &str, port: u16)
    ensures
        final(s)@ == old(s)@ + host_port(host@, port),
{
    push_str(s, host);
    push_str(s, ":");
    let p = crate::text::decimal_string(port as u64);
    push_str(s, p.as_str());
    proof {
        reveal_strlit(":");
    }
}

pub fn flow_key(protocol: &str, src_ip: &str, src_port: Option<u16>, dst_ip: &str, dst_port: Option<u16>) -> (r: String)
    ensures
        r@ == spec_flow_key(protocol@, src_ip@, src_port, dst_ip@, dst_port),
{
    let mut s = String::new();
    push_str(&mut s, protocol);
    push_str(&mut s, " ");
    match (src_port, dst_port) {
        (Some(sp), Some(dp)) => {
            push_host_port(&mut s, src_ip, sp);
            push_str(&mut s, " -> ");
            push_host_port(&mut s, dst_ip, dp);
        },
        _ => {
            push_str(&mut s, src_ip);
            push_str(&mut s, " -> ");
            push_str(&mut s, dst_ip);
        },
    }
    proof {
        reveal_strlit(" ");
        reveal_strlit(" -> ");
    }
    s
}

/// The source of a flow as a session records it: `ip:port`, or the
/// address alone.
pub fn flow_source(src_ip: &str, src_port: Option<u16>) -> (r: String)
    ensures
        r@ == match src_port {
            Some(p) => host_port(src_ip@, p),
            None => src_ip@,
        },
{
    let mut s = String::new();
    match src_port {
        Some(p) => push_host_port(&mut s, src_ip, p),
        None => push_str(&mut s, src_ip),
    }
    s
}

/// How many flows an inspection shows, when it is limited: between 1 and
/// 10,000.
pub fn inspect_limit(limit: Option<usize>) -> (r: Option<usize>)
    ensures
        r == match limit {
            None => None,
            Some(l) => Some(
                if l < 1 {
                    1
                } else if l > 10_000 {
                    10_000
                } else {
                    l
                },
            ),
        },
{
    match limit {
        None => None,
        Some(l) => Some(
            if l < 1 {
                1
            } else if l > 10_000 {
                10_000
            } else {
                l
            },
        ),
    }
}

/// Whether the set of flows already reported is cleared: once it holds more
/// than 4,096 flows.
pub fn seen_flows_overflow(len: usize) -> (r: bool)
    ensures
        r == (len > 4096),
{
    len > 4096
}

/// Whether a limited inspection stops: it has seen as many flows as its
/// limit.
pub fn inspection_done(seen: usize, limit: Option<usize>) -> (r: bool)
    ensures
        r == (limit matches Some(m) && seen >= m),
{
    match limit {
        Some(m) => seen >= m,
        None => false,
    }
}

// ---------------------------------------------------------------------------
// Laws
// ---------------------------------------------------------------------------

/// A FIN or RST from the client always ends a held flow, and sends a FIN
/// back only when neither a reset nor an earlier FIN makes it moot.
pub proof fn law_closing_segment_ends_flow(f: TcpFlow, seg: TcpSegment)
    requires
        seg.fin || seg.rst,
    ensures
        spec_tcp_step(Some(f), seg) is Closed,
        (spec_tcp_step(Some(f), seg)->fin is Some) <==> (!seg.rst && f.state != TcpState::FinSent),
{
}

/// The handshake: a flow opened for a SYN is established by the client's
/// acknowledgement, which moves nothing else.
pub proof fn law_handshake_completes(syn: TcpSegment, server_seq: u32, ack: TcpSegment)
    requires
        syn.syn,
        ack.ack && !ack.syn && !ack.fin && !ack.rst && ack.payload_len == 0 && ack.seq is None,
    ensures
        spec_tcp_step(Some(spec_opened(syn, server_seq)), ack) == (TcpStep::Held {
            flow: with_state(spec_opened(syn, server_seq), TcpState::Established),
        }),
{
}

/// Every byte relayed to the client takes one sequence number: after reads
/// of `n1` and then `n2` bytes, `server_seq` has moved on by `n1 + n2`
/// (modulo 2^32) and `downloaded` has grown by as much.
pub proof fn law_data_advances_sequence(f: TcpFlow, n1: usize, n2: usize)
    requires
        f.downloaded + n1 + n2 <= u64::MAX,
    ensures
        ({
            let g = spec_after_read(f, ReadOutcome::Data(n1), false)->Some_0;
            let h = spec_after_read(g, ReadOutcome::Data(n2), false)->Some_0;
            h.server_seq == wrap32(f.server_seq + n1 + n2) && h.downloaded == f.downloaded + n1 + n2
        }),
{
    let g = spec_after_read(f, ReadOutcome::Data(n1), false)->Some_0;
    let a = f.server_seq as int + n1;
    let m: int = 0x1_0000_0000;
    assert((a % m + n2) % m == (a + n2) % m) by {
        vstd::arithmetic::div_mod::lemma_add_mod_noop(a, n2 as int, m);
        vstd::arithmetic::div_mod::lemma_mod_twice(n2 as int, m);
        vstd::arithmetic::div_mod::lemma_mod_twice(a, m);
        vstd::arithmetic::div_mod::lemma_add_mod_noop(a % m, n2 as int, m);
    }
}

/// Relaying a segment's payload acknowledges exactly the sequence space it
/// took: the acknowledgement number sent back is the segment's number plus
/// its payload and its SYN and FIN, modulo 2^32.
pub proof fn law_forward_acknowledges_segment(f: TcpFlow, seg: TcpSegment, s: u32)
    requires
        seg.seq == Some(s),
        f.uploaded + seg.payload_len <= u64::MAX,
    ensures
        spec_forwarded(f, seg).client_next_seq == wrap32(s + seg_space(seg)),
        spec_forwarded(f, seg).uploaded == f.uploaded + seg.payload_len,
        spec_forwarded(f, seg).server_seq == f.server_seq,
{
}

} // verus!
