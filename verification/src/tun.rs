//! What the TUN device's packet loop decides on its own: which DNS queries
//! it answers itself, which packets are local multicast, the initial
//! sequence number of a relayed TCP flow, and the host names and addresses
//! that DNS answers teach it.
use vstd::prelude::*;
use vstd::utf8::{decode_utf8, valid_utf8};

use crate::codec::utf8_decode;
use crate::dns::{be16, ip_octets, IpAddress};
use crate::text::{chars_of, eq_ignore_case, lower, lower_chars, push_str, str_eq, string_of, trim, trim_chars};

use std::hash::{Hash, Hasher};

verus! {

// ---------------------------------------------------------------------------
// DNS names and answers
// ---------------------------------------------------------------------------

/// The labels of a name from `cursor`, and where the name ends there; a
/// pointer hands the rest to the name it points at, one level deeper.
pub open spec fn name_from(msg: Seq<u8>, cursor: int, depth: int) -> Option<(Seq<Seq<char>>, int)>
    decreases 9 - depth, msg.len() - cursor, 0int,
{
    if depth < 0 || depth > 8 || cursor < 0 || cursor >= msg.len() {
        None
    } else {
        let len = msg[cursor];
        if len >= 0xC0 {
            if cursor + 1 >= msg.len() {
                None
            } else {
                let pointer = (len - 0xC0) * 256 + msg[cursor + 1];
                match dns_name(msg, pointer, depth + 1) {
                    None => None,
                    Some(suffix) => Some(
                        (
                            if suffix.len() > 0 {
                                seq![suffix]
                            } else {
                                Seq::empty()
                            },
                            cursor + 2,
                        ),
                    ),
                }
            }
        } else if len == 0 {
            Some((Seq::empty(), cursor + 1))
        } else {
            let end = cursor + 1 + len;
            if end > msg.len() {
                None
            } else if !valid_utf8(msg.subrange(cursor + 1, end)) {
                None
            } else {
                match name_from(msg, end, depth) {
                    None => None,
                    Some((rest, c)) => Some((seq![decode_utf8(msg.subrange(cursor + 1, end))] + rest, c)),
                }
            }
        }
    }
}

/// Labels joined by dots.
pub open spec fn join_dots(labels: Seq<Seq<char>>) -> Seq<char>
    decreases labels.len(),
{
    if labels.len() == 0 {
        Seq::empty()
    } else if labels.len() == 1 {
        labels[0]
    } else {
        join_dots(labels.drop_last()) + seq!['.'] + labels.last()
    }
}

/// The name at `offset` as text, at pointer depth `depth` (at most 8).
pub open spec fn dns_name(msg: Seq<u8>, offset: int, depth: int) -> Option<Seq<char>>
    decreases 9 - depth, msg.len() - offset + 1, 1int,
{
    if depth < 0 || depth > 8 || offset < 0 || offset >= msg.len() {
        None
    } else {
        match name_from(msg, offset, depth) {
            Some((labels, _)) => Some(join_dots(labels)),
            None => None,
        }
    }
}

/// Where a name at `offset` ends.
pub open spec fn dns_name_end(msg: Seq<u8>, offset: int, depth: int) -> int {
    match name_from(msg, offset, depth) {
        Some((_, c)) => c,
        None => offset,
    }
}

proof fn lemma_name_from_end(msg: Seq<u8>, cursor: int, depth: int)
    ensures
        name_from(msg, cursor, depth) matches Some((_, c)) ==> cursor < c <= msg.len(),
    decreases msg.len() - cursor,
{
    if 0 <= depth <= 8 && 0 <= cursor < msg.len() {
        let len = msg[cursor];
        if len < 0xC0 && len != 0 {
            let end = cursor + 1 + len;
            if end <= msg.len() {
                lemma_name_from_end(msg, end, depth);
            }
        }
    }
}

/// Joins labels with dots.
fn join_labels(labels: &Vec<String>) -> (r: String)
    ensures
        r@ == join_dots(crate::text::views(labels@)),
{
    let ghost ls = crate::text::views(labels@);
    let mut out: Vec<char> = Vec::new();
    let mut i: usize = 0;
    while i < labels.len()
        invariant
            i <= labels@.len(),
            ls == crate::text::views(labels@),
            out@ == join_dots(ls.take(i as int)),
        decreases labels.len() - i,
    {
        assert(ls.take(i + 1).drop_last() =~= ls.take(i as int));
        if i > 0 {
            out.push('.');
        }
        let c = chars_of(labels[i].as_str());
        let mut k: usize = 0;
        let ghost base = out@;
        while k < c.len()
            invariant
                k <= c@.len(),
                out@ == base + c@.take(k as int),
            decreases c.len() - k,
        {
            out.push(c[k]);
            k += 1;
            assert(out@ =~= base + c@.take(k as int));
        }
        assert(c@.take(c@.len() as int) =~= c@);
        proof {
            if i == 0 {
                assert(ls.take(1) =~= seq![ls[0]]);
                assert(out@ =~= ls[0]);
            }
        }
        i += 1;
    }
    assert(ls.take(labels@.len() as int) =~= ls);
    string_of(out.as_slice())
}

/// Reads the name at `*offset` (following pointers, at most 8 deep) and
/// moves the offset past it.
pub fn parse_dns_name(message: &[u8], offset: &mut usize, depth: u8) -> (r: Option<String>)
    ensures
        match dns_name(message@, *old(offset) as int, depth as int) {
            Some(n) => r is Some && r->Some_0@ == n && *final(offset) == dns_name_end(message@, *old(offset) as int, depth as int),
            None => r is None,
        },
    decreases 9 - depth,
{
    if depth > 8 || *offset >= message.len() {
        return None;
    }
    let start = *offset;
    let mut labels: Vec<String> = Vec::new();
    let mut cursor: usize = start;
    loop
        invariant_except_break
            name_from(message@, start as int, depth as int) == match name_from(message@, cursor as int, depth as int) {
                Some((rest, c)) => Some((crate::text::views(labels@) + rest, c)),
                None => None::<(Seq<Seq<char>>, int)>,
            },
        invariant
            depth <= 8,
            start < message@.len(),
            start == *old(offset),
            *offset == *old(offset),
            cursor <= message@.len(),
        ensures
            name_from(message@, start as int, depth as int) == Some((crate::text::views(labels@), cursor as int)),
        decreases message@.len() - cursor,
    {
        if cursor >= message.len() {
            return None;
        }
        let len = message[cursor];
        if len >= 0xC0 {
            if cursor + 1 >= message.len() {
                return None;
            }
            let pointer: usize = ((len - 0xC0) as usize) * 256 + (message[cursor + 1] as usize);
            let mut nested = pointer;
            let suffix = match parse_dns_name(message, &mut nested, depth + 1) {
                None => {
                    return None;
                },
                Some(s) => s,
            };
            let ghost before = crate::text::views(labels@);
            let ghost sv = suffix@;
            assert(name_from(message@, cursor as int, depth as int) == Some((
                if sv.len() > 0 { seq![sv] } else { Seq::<Seq<char>>::empty() },
                cursor + 2,
            )));
            if chars_of(suffix.as_str()).len() > 0 {
                labels.push(suffix);
                assert(crate::text::views(labels@) =~= before + seq![sv]);
            } else {
                assert(crate::text::views(labels@) =~= before + Seq::<Seq<char>>::empty());
            }
            cursor = cursor + 2;
            break;
        }
        if len == 0 {
            assert(name_from(message@, cursor as int, depth as int) == Some((Seq::<Seq<char>>::empty(), cursor + 1)));
            assert(crate::text::views(labels@) =~= crate::text::views(labels@) + Seq::<Seq<char>>::empty());
            cursor = cursor + 1;
            break;
        }
        let label_len = len as usize;
        if label_len > message.len() - cursor - 1 {
            return None;
        }
        let end = cursor + 1 + label_len;
        let bytes = crate::http::byte_range(message, cursor + 1, end);
        let label = match utf8_decode(bytes.as_slice()) {
            None => {
                return None;
            },
            Some(l) => l,
        };
        let ghost before = crate::text::views(labels@);
        labels.push(label);
        proof {
            assert(crate::text::views(labels@) =~= before.push(decode_utf8(message@.subrange(cursor + 1, end as int))));
            match name_from(message@, end as int, depth as int) {
                Some((rest, c)) => {
                    assert(before + (seq![decode_utf8(message@.subrange(cursor + 1, end as int))] + rest)
                        =~= crate::text::views(labels@) + rest);
                },
                None => {},
            }
        }
        cursor = end;
    }
    proof {
        lemma_name_from_end(message@, start as int, depth as int);
    }
    *offset = cursor;
    Some(join_labels(&labels))
}

/// The addresses of answers from `cursor`, with the least TTL seen; `ttl`
/// and `found` are what earlier answers gave.
pub open spec fn mapping_answers(msg: Seq<u8>, cursor: int, n: nat, found: Seq<Seq<u8>>, ttl: u32) -> Option<(Seq<Seq<u8>>, u32)>
    decreases n,
{
    if n == 0 {
        Some((found, ttl))
    } else {
        match dns_name(msg, cursor, 0) {
            None => None,
            Some(_) => {
                let c = dns_name_end(msg, cursor, 0);
                if c + 10 > msg.len() {
                    None
                } else {
                    let rtype = be16(msg[c], msg[c + 1]);
                    let class = be16(msg[c + 2], msg[c + 3]);
                    let rttl = (msg[c + 4] as int * 0x1000000 + msg[c + 5] as int * 0x10000 + msg[c + 6] as int * 0x100
                        + msg[c + 7] as int) as u32;
                    let rdlen = be16(msg[c + 8], msg[c + 9]) as int;
                    let d = c + 10;
                    if d + rdlen > msg.len() {
                        None
                    } else {
                        let take = class == 1 && ((rtype == 1 && rdlen == 4) || (rtype == 28 && rdlen == 16));
                        let found2 = if take {
                            found.push(msg.subrange(d, d + rdlen))
                        } else {
                            found
                        };
                        let ttl2 = if take && rttl < ttl {
                            rttl
                        } else {
                            ttl
                        };
                        mapping_answers(msg, d + rdlen, (n - 1) as nat, found2, ttl2)
                    }
                }
            },
        }
    }
}

/// The host a DNS answer is for, the octets of the addresses it gives, and
/// how long to keep them: the least TTL among them, or 300 seconds when
/// that is `u32::MAX`.
pub open spec fn spec_dns_mapping(msg: Seq<u8>) -> Option<(Seq<char>, Seq<Seq<u8>>, u32)> {
    if msg.len() < 12 || be16(msg[4], msg[5]) == 0 || be16(msg[6], msg[7]) == 0 {
        None
    } else {
        match dns_name(msg, 12, 0) {
            None => None,
            Some(host) => {
                let c = dns_name_end(msg, 12, 0);
                if c + 4 > msg.len() {
                    None
                } else {
                    match mapping_answers(msg, c + 4, be16(msg[6], msg[7]) as nat, Seq::empty(), u32::MAX) {
                        None => None,
                        Some((addrs, ttl)) => if addrs.len() == 0 {
                            None
                        } else {
                            Some((host, addrs, if ttl == u32::MAX { 300u32 } else { ttl }))
                        },
                    }
                }
            },
        }
    }
}

/// The host name, addresses and lifetime that a DNS answer gives.
pub fn extract_dns_mapping(message: &[u8]) -> (r: Option<(String, Vec<IpAddress>, u32)>)
    ensures
        match spec_dns_mapping(message@) {
            None => r is None,
            Some((host, addrs, ttl)) => r is Some && r->Some_0.0@ == host && r->Some_0.2 == ttl
                && r->Some_0.1@.len() == addrs.len()
                && forall|i: int| 0 <= i < addrs.len() ==> #[trigger] ip_octets(r->Some_0.1@[i]) == addrs[i],
        },
{
    if message.len() < 12 {
        return None;
    }
    let qd = crate::dns::read_be16(message, 4);
    let an = crate::dns::read_be16(message, 6);
    if qd == 0 || an == 0 {
        return None;
    }
    let mut offset: usize = 12;
    let host = match parse_dns_name(message, &mut offset, 0) {
        None => {
            return None;
        },
        Some(h) => h,
    };
    proof {
        lemma_name_from_end(message@, 12, 0);
    }
    if message.len() - offset < 4 {
        return None;
    }
    offset = offset + 4;
    let mut addresses: Vec<IpAddress> = Vec::new();
    let mut ttl: u32 = u32::MAX;
    assert(addresses@.map_values(|ip: IpAddress| ip_octets(ip)) =~= Seq::<Seq<u8>>::empty());
    let mut k: u16 = 0;
    while k < an
        invariant
            k <= an,
            offset <= message@.len(),
            spec_dns_mapping(message@) == match mapping_answers(
                message@,
                offset as int,
                (an - k) as nat,
                addresses@.map_values(|ip: IpAddress| ip_octets(ip)),
                ttl,
            ) {
                None => None,
                Some((addrs, t)) => if addrs.len() == 0 {
                    None
                } else {
                    Some((host@, addrs, if t == u32::MAX { 300u32 } else { t }))
                },
            },
        decreases an - k,
    {
        let ghost c0 = offset as int;
        let ghost found = addresses@.map_values(|ip: IpAddress| ip_octets(ip));
        match parse_dns_name(message, &mut offset, 0) {
            None => {
                return None;
            },
            Some(_) => {},
        }
        proof {
            lemma_name_from_end(message@, c0, 0);
        }
        if message.len() - offset < 10 {
            return None;
        }
        let rtype = crate::dns::read_be16(message, offset);
        let class = crate::dns::read_be16(message, offset + 2);
        let rttl: u32 = (message[offset + 4] as u32) * 0x1000000 + (message[offset + 5] as u32) * 0x10000
            + (message[offset + 6] as u32) * 0x100 + (message[offset + 7] as u32);
        let rdlen = crate::dns::read_be16(message, offset + 8) as usize;
        let d = offset + 10;
        if rdlen > message.len() - d {
            return None;
        }
        let take = class == 1 && ((rtype == 1 && rdlen == 4) || (rtype == 28 && rdlen == 16));
        if take {
            if rtype == 1 {
                addresses.push(IpAddress::V4(message[d], message[d + 1], message[d + 2], message[d + 3]));
                assert(ip_octets(addresses@.last()) =~= message@.subrange(d as int, d + 4));
            } else {
                let mut o = [0u8; 16];
                let mut j: usize = 0;
                while j < 16
                    invariant
                        j <= 16,
                        d + 16 <= message.len(),
                        forall|t: int| 0 <= t < j ==> o@[t] == message@[d + t],
                    decreases 16 - j,
                {
                    o[j] = message[d + j];
                    j += 1;
                }
                assert(o@ =~= message@.subrange(d as int, d + 16));
                addresses.push(IpAddress::V6(o));
            }
            assert(addresses@.map_values(|ip: IpAddress| ip_octets(ip)) =~= found.push(message@.subrange(d as int, d + rdlen)));
            if rttl < ttl {
                ttl = rttl;
            }
        }
        offset = d + rdlen;
        k = k + 1;
    }
    if addresses.len() == 0 {
        return None;
    }
    let final_ttl = if ttl == u32::MAX {
        300
    } else {
        ttl
    };
    Some((host, addresses, final_ttl))
}

// ---------------------------------------------------------------------------
// Packets
// ---------------------------------------------------------------------------

/// A hijack rule that takes every DNS query: `any:53` or `53`.
pub open spec fn catch_all_rule(r: Seq<char>) -> bool {
    lower(trim(r)) == "any:53"@ || lower(trim(r)) == "53"@
}

/// Whether the device answers a packet's DNS query itself: it goes to port
/// 53, and a hijack rule (trimmed, in any case) is `any:53`, `53`, or the
/// packet's destination followed by `:53`.
pub fn should_hijack_dns(rules: &[String], dst_port: Option<u16>, dst_ip: &str) -> (r: bool)
    ensures
        r == (dst_port == Some(53u16) && exists|i: int| 0 <= i < rules@.len() && (catch_all_rule(#[trigger] rules@[i]@)
            || lower(trim(rules@[i]@)) == dst_ip@ + ":53"@)),
{
    match dst_port {
        Some(53) => {},
        _ => {
            return false;
        },
    }
    let mut own = chars_of(dst_ip);
    own.push(':');
    own.push('5');
    own.push('3');
    let any = chars_of("any:53");
    let port = chars_of("53");
    proof {
        reveal_strlit(":53");
    }
    let mut i: usize = 0;
    while i < rules.len()
        invariant
            i <= rules@.len(),
            dst_port == Some(53u16),
            own@ == dst_ip@ + ":53"@,
            any@ == "any:53"@,
            port@ == "53"@,
            forall|j: int| 0 <= j < i ==> !(catch_all_rule(#[trigger] rules@[j]@) || lower(trim(rules@[j]@)) == dst_ip@ + ":53"@),
        decreases rules.len() - i,
    {
        let c = chars_of(rules[i].as_str());
        let t = trim_chars(c.as_slice());
        let l = lower_chars(t.as_slice());
        if crate::text::chars_eq(l.as_slice(), any.as_slice()) || crate::text::chars_eq(l.as_slice(), port.as_slice())
            || crate::text::chars_eq(l.as_slice(), own.as_slice()) {
            assert(catch_all_rule(rules@[i as int]@) || lower(trim(rules@[i as int]@)) == dst_ip@ + ":53"@);
            return true;
        }
        i += 1;
    }
    false
}

/// A multicast or broadcast destination: IPv4 224.0.0.0/4 or
/// 255.255.255.255, or IPv6 ff00::/8.
pub open spec fn local_multicast(ip: IpAddress) -> bool {
    match ip {
        IpAddress::V4(a, b, c, d) => (224 <= a && a <= 239) || (a == 255 && b == 255 && c == 255 && d == 255),
        IpAddress::V6(o) => o@[0] == 0xff,
    }
}

/// Whether a destination is local multicast or broadcast.
pub fn is_local_multicast(dst: &IpAddress) -> (r: bool)
    ensures
        r == local_multicast(*dst),
{
    match dst {
        IpAddress::V4(a, b, c, d) => (*a >= 224 && *a <= 239) || (*a == 255 && *b == 255 && *c == 255 && *d == 255),
        IpAddress::V6(o) => o[0] == 0xff,
    }
}

/// What std's `DefaultHasher` gives for a text that is hashed.
pub uninterp spec fn default_hash(s: Seq<char>) -> u64;

/// `str::hash` into a fresh `std::collections::hash_map::DefaultHasher`,
/// then `finish`. Claimed: the result is `default_hash` of the text (the
/// hasher is created with fixed keys, not per process).
#[verifier::external_body]
fn hash_text(s: &str) -> (r: u64)
    ensures
        r == default_hash(s@),
{
    let mut hasher = std::collections::hash_map::DefaultHasher::new();
    s.hash(&mut hasher);
    hasher.finish()
}

/// The initial sequence number of the server side of a relayed TCP flow:
/// the low 32 bits of the hash of the flow's key.
pub fn derive_server_seq(flow_key: &str) -> (r: u32)
    ensures
        r == default_hash(flow_key@) % 0x1_0000_0000,
{
    let h = hash_text(flow_key);
    (h % 0x1_0000_0000) as u32
}

/// The answers that a mapping keeps are addresses of four or sixteen
/// octets, at most one per answer, and the lifetime only goes down.
proof fn lemma_mapping_answers_shape(msg: Seq<u8>, cursor: int, n: nat, found: Seq<Seq<u8>>, ttl: u32)
    requires
        0 <= cursor,
        forall|i: int| 0 <= i < found.len() ==> (#[trigger] found[i]).len() == 4 || found[i].len() == 16,
    ensures
        mapping_answers(msg, cursor, n, found, ttl) matches Some((a, t)) ==> a.len() <= found.len() + n && t <= ttl
            && found.len() <= a.len() && forall|i: int| 0 <= i < a.len() ==> (#[trigger] a[i]).len() == 4 || a[i].len() == 16,
    decreases n,
{
    if n > 0 {
        match dns_name(msg, cursor, 0) {
            None => {},
            Some(_) => {
                lemma_name_from_end(msg, cursor, 0);
                let c = dns_name_end(msg, cursor, 0);
                if c + 10 <= msg.len() {
                    let rtype = be16(msg[c], msg[c + 1]);
                    let class = be16(msg[c + 2], msg[c + 3]);
                    let rttl = (msg[c + 4] as int * 0x1000000 + msg[c + 5] as int * 0x10000 + msg[c + 6] as int * 0x100
                        + msg[c + 7] as int) as u32;
                    let rdlen = be16(msg[c + 8], msg[c + 9]) as int;
                    let d = c + 10;
                    if d + rdlen <= msg.len() {
                        let take = class == 1 && ((rtype == 1 && rdlen == 4) || (rtype == 28 && rdlen == 16));
                        let found2 = if take {
                            found.push(msg.subrange(d, d + rdlen))
                        } else {
                            found
                        };
                        let ttl2 = if take && rttl < ttl {
                            rttl
                        } else {
                            ttl
                        };
                        assert forall|i: int| 0 <= i < found2.len() implies (#[trigger] found2[i]).len() == 4
                            || found2[i].len() == 16 by {
                            if i < found.len() {
                                assert(found2[i] == found[i]);
                            }
                        }
                        lemma_mapping_answers_shape(msg, d + rdlen, (n - 1) as nat, found2, ttl2);
                    }
                }
            },
        }
    }
}

/// A DNS message gives no mapping when it is shorter than a header or has
/// no question or no answer; a mapping it gives has at least one address
/// and at most one per answer, each of four or sixteen octets.
pub proof fn law_dns_mapping(msg: Seq<u8>)
    ensures
        msg.len() < 12 || be16(msg[4], msg[5]) == 0 || be16(msg[6], msg[7]) == 0 ==> spec_dns_mapping(msg) is None,
        spec_dns_mapping(msg) matches Some((h, a, t)) ==> 0 < a.len() <= be16(msg[6], msg[7]) && forall|i: int|
            0 <= i < a.len() ==> (#[trigger] a[i]).len() == 4 || a[i].len() == 16,
{
    if !(msg.len() < 12 || be16(msg[4], msg[5]) == 0 || be16(msg[6], msg[7]) == 0) {
        match dns_name(msg, 12, 0) {
            None => {},
            Some(_) => {
                lemma_name_from_end(msg, 12, 0);
                let c = dns_name_end(msg, 12, 0);
                if c + 4 <= msg.len() {
                    lemma_mapping_answers_shape(msg, c + 4, be16(msg[6], msg[7]) as nat, Seq::empty(), u32::MAX);
                }
            },
        }
    }
}
/// Each answer of class IN that is an A record of 4 octets or an AAAA
/// record of 16 octets is added to the mapping, after the ones before it,
/// and lowers the lifetime to at most its own TTL; any other answer leaves
/// both as they were.
pub proof fn law_mapping_answer_kept(msg: Seq<u8>, cursor: int, n: nat, found: Seq<Seq<u8>>, ttl: u32)
    requires
        n > 0,
        dns_name(msg, cursor, 0) is Some,
        dns_name_end(msg, cursor, 0) + 10 <= msg.len(),
        dns_name_end(msg, cursor, 0) + 10 + be16(msg[dns_name_end(msg, cursor, 0) + 8], msg[dns_name_end(msg, cursor, 0)
            + 9]) <= msg.len(),
    ensures
        ({
            let c = dns_name_end(msg, cursor, 0);
            let rtype = be16(msg[c], msg[c + 1]);
            let class = be16(msg[c + 2], msg[c + 3]);
            let rttl = (msg[c + 4] as int * 0x1000000 + msg[c + 5] as int * 0x10000 + msg[c + 6] as int * 0x100
                + msg[c + 7] as int) as u32;
            let len = be16(msg[c + 8], msg[c + 9]) as int;
            let d = c + 10;
            let ipv4 = rtype == 1 && len == 4;
            let ipv6 = rtype == 28 && len == 16;
            if class == 1 && (ipv4 || ipv6) {
                mapping_answers(msg, cursor, n, found, ttl) == mapping_answers(
                    msg,
                    d + len,
                    (n - 1) as nat,
                    found + seq![msg.subrange(d, d + len)],
                    if rttl < ttl {
                        rttl
                    } else {
                        ttl
                    },
                )
            } else {
                mapping_answers(msg, cursor, n, found, ttl) == mapping_answers(msg, d + len, (n - 1) as nat, found, ttl)
            }
        }),
{
    let c = dns_name_end(msg, cursor, 0);
    let len = be16(msg[c + 8], msg[c + 9]) as int;
    let d = c + 10;
    assert(found + seq![msg.subrange(d, d + len)] =~= found.push(msg.subrange(d, d + len)));
}

/// A DNS reply with a question and one answer of class IN that is an AAAA
/// record of 16 octets (or an A record of 4) maps the question's name to
/// exactly that address, with the answer's TTL as lifetime (300 seconds
/// when the TTL is the largest value).
pub proof fn law_single_answer_mapping(msg: Seq<u8>)
    requires
        msg.len() >= 12,
        be16(msg[4], msg[5]) > 0,
        be16(msg[6], msg[7]) == 1,
        dns_name(msg, 12, 0) is Some,
        dns_name_end(msg, 12, 0) + 4 <= msg.len(),
        ({
            let a = dns_name_end(msg, 12, 0) + 4;
            &&& dns_name(msg, a, 0) is Some
            &&& dns_name_end(msg, a, 0) + 10 <= msg.len()
            &&& {
                let c = dns_name_end(msg, a, 0);
                let rtype = be16(msg[c], msg[c + 1]);
                let len = be16(msg[c + 8], msg[c + 9]) as int;
                &&& c + 10 + len <= msg.len()
                &&& be16(msg[c + 2], msg[c + 3]) == 1
                &&& ((rtype == 1 && len == 4) || (rtype == 28 && len == 16))
            }
        }),
    ensures
        ({
            let a = dns_name_end(msg, 12, 0) + 4;
            let c = dns_name_end(msg, a, 0);
            let len = be16(msg[c + 8], msg[c + 9]) as int;
            let rttl = (msg[c + 4] as int * 0x1000000 + msg[c + 5] as int * 0x10000 + msg[c + 6] as int * 0x100
                + msg[c + 7] as int) as u32;
            spec_dns_mapping(msg) == Some(
                (
                    dns_name(msg, 12, 0)->Some_0,
                    seq![msg.subrange(c + 10, c + 10 + len)],
                    if rttl == u32::MAX {
                        300u32
                    } else {
                        rttl
                    },
                ),
            )
        }),
{
    let a = dns_name_end(msg, 12, 0) + 4;
    let c = dns_name_end(msg, a, 0);
    let len = be16(msg[c + 8], msg[c + 9]) as int;
    law_mapping_answer_kept(msg, a, 1, Seq::empty(), u32::MAX);
    assert(Seq::<Seq<u8>>::empty() + seq![msg.subrange(c + 10, c + 10 + len)] =~= seq![msg.subrange(c + 10, c + 10 + len)]);
}
} // verus!
