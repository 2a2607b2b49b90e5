//! DNS messages: building A/AAAA queries and reading the addresses in
//! responses, with compressed names.
use vstd::prelude::*;
use vstd::string::StringSliceAdditionalSpecFns;

verus! {

/// The record types that are queried.
#[derive(Debug, PartialEq, Eq, Structural)]
pub enum RecordType {
    A,
    Aaaa,
}

/// Why a DNS message or name was refused.
#[derive(Debug, PartialEq, Eq, Structural)]
pub enum DnsError {
    InvalidLabel,
    ShortResponse,
    MismatchedId,
    NotAResponse,
    ServerError(u16),
    TruncatedName,
    TruncatedPointer,
    TooManyJumps,
    TruncatedQuestion,
    TruncatedAnswer,
    TruncatedAnswerData,
}

/// An IP address by its octets.
#[derive(Debug, PartialEq, Eq)]
pub enum IpAddress {
    V4(u8, u8, u8, u8),
    V6([u8; 16]),
}

pub open spec fn record_code(t: RecordType) -> u16 {
    match t {
        RecordType::A => 1,
        RecordType::Aaaa => 28,
    }
}

impl RecordType {
    /// The code of the record type on the wire.
    pub fn as_u16(&self) -> (r: u16)
        ensures
            r == record_code(*self),
    {
        match self {
            RecordType::A => 1,
            RecordType::Aaaa => 28,
        }
    }
}

pub open spec fn be16(hi: u8, lo: u8) -> u16 {
    (hi as int * 256 + lo as int) as u16
}

pub open spec fn be16_bytes(v: u16) -> Seq<u8> {
    seq![(v / 256) as u8, (v % 256) as u8]
}

pub fn u16_be(v: u16) -> (r: [u8; 2])
    ensures
        r@ == be16_bytes(v),
{
    [(v / 256) as u8, (v % 256) as u8]
}

// ---------------------------------------------------------------------------
// Queries
// ---------------------------------------------------------------------------

/// `s` without the `.` bytes at its end (`trim_end_matches('.')`).
pub open spec fn trim_dots(s: Seq<u8>) -> Seq<u8>
    decreases s.len(),
{
    if s.len() > 0 && s.last() == 0x2e {
        trim_dots(s.drop_last())
    } else {
        s
    }
}

/// The pieces of `s` between `.` bytes (`split('.')`), always at least one.
pub open spec fn split_dots(s: Seq<u8>) -> Seq<Seq<u8>>
    decreases s.len(),
{
    if s.len() == 0 {
        seq![Seq::empty()]
    } else {
        let r = split_dots(s.drop_last());
        if s.last() == 0x2e {
            r.push(Seq::empty())
        } else {
            r.update(r.len() - 1, r.last().push(s.last()))
        }
    }
}

/// The labels of a name, each as a length byte and its bytes, or `None`
/// when a label is empty or longer than 63 bytes.
pub open spec fn encode_labels(labels: Seq<Seq<u8>>) -> Option<Seq<u8>>
    decreases labels.len(),
{
    if labels.len() == 0 {
        Some(Seq::empty())
    } else {
        match encode_labels(labels.drop_last()) {
            None => None,
            Some(prefix) => {
                let l = labels.last();
                if l.len() == 0 || l.len() > 63 {
                    None
                } else {
                    Some(prefix + seq![l.len() as u8] + l)
                }
            },
        }
    }
}

/// The query for the records of type `t` of `domain` (its UTF-8 bytes), with
/// message id `id` and recursion desired.
pub open spec fn spec_query(domain: Seq<u8>, t: RecordType, id: u16) -> Option<Seq<u8>> {
    match encode_labels(split_dots(trim_dots(domain))) {
        None => None,
        Some(name) => Some(
            be16_bytes(id) + seq![1u8, 0, 0, 1, 0, 0, 0, 0, 0, 0] + name + seq![0u8] + be16_bytes(
                record_code(t),
            ) + seq![0u8, 1],
        ),
    }
}

/// A failing prefix of labels makes the whole name fail.
proof fn lemma_encode_prefix_fails(labels: Seq<Seq<u8>>, m: int)
    requires
        0 <= m <= labels.len(),
        encode_labels(labels.take(m)) is None,
    ensures
        encode_labels(labels) is None,
    decreases labels.len(),
{
    if labels.len() > m {
        assert(labels.drop_last().take(m) =~= labels.take(m));
        lemma_encode_prefix_fails(labels.drop_last(), m);
    } else {
        assert(labels.take(m) =~= labels);
    }
}

/// Splits bytes at `.` (`split('.')`).
fn split_at_dots(s: &[u8], end: usize) -> (r: Vec<Vec<u8>>)
    requires
        end <= s.len(),
    ensures
        r@.map_values(|l: Vec<u8>| l@) == split_dots(s@.take(end as int)),
{
    let mut r: Vec<Vec<u8>> = Vec::new();
    r.push(Vec::new());
    assert(r@.map_values(|l: Vec<u8>| l@) =~= split_dots(s@.take(0)));
    let mut i: usize = 0;
    while i < end
        invariant
            i <= end <= s@.len(),
            r@.len() >= 1,
            r@.map_values(|l: Vec<u8>| l@) == split_dots(s@.take(i as int)),
        decreases end - i,
    {
        let ghost before = r@.map_values(|l: Vec<u8>| l@);
        proof {
            assert(s@.take(i + 1).drop_last() =~= s@.take(i as int));
            assert(s@.take(i + 1).last() == s@[i as int]);
        }
        if s[i] == 0x2e {
            r.push(Vec::new());
            assert(r@.map_values(|l: Vec<u8>| l@) =~= before.push(Seq::empty()));
        } else {
            let last = r.len() - 1;
            let mut l = r.pop().unwrap();
            l.push(s[i]);
            r.push(l);
            assert(r@.map_values(|l: Vec<u8>| l@) =~= before.update(last as int, before.last().push(s@[i as int])));
        }
        i += 1;
    }
    r
}

/// Builds the query for the records of type `t` of `domain`, with message id
/// `id`. Refused when a label of the name is empty or longer than 63 bytes.
pub fn build_query(domain: &str, t: &RecordType, id: u16) -> (r: Result<Vec<u8>, DnsError>)
    ensures
        match r {
            Ok(q) => spec_query(domain.spec_bytes(), *t, id) == Some(q@),
            Err(e) => spec_query(domain.spec_bytes(), *t, id) is None && e == DnsError::InvalidLabel,
        },
{
    let bytes = domain.as_bytes();
    let mut end: usize = bytes.len();
    assert(bytes@.take(end as int) =~= bytes@);
    while end > 0 && bytes[end - 1] == 0x2e
        invariant
            end <= bytes@.len(),
            trim_dots(bytes@.take(end as int)) == trim_dots(bytes@),
        decreases end,
    {
        assert(bytes@.take(end as int).drop_last() =~= bytes@.take(end - 1));
        end -= 1;
    }
    assert(trim_dots(bytes@.take(end as int)) == bytes@.take(end as int));
    let labels = split_at_dots(bytes, end);
    let ghost lv = labels@.map_values(|l: Vec<u8>| l@);
    let mut name: Vec<u8> = Vec::new();
    let mut j: usize = 0;
    assert(lv.take(0) =~= Seq::<Seq<u8>>::empty());
    assert(lv == split_dots(trim_dots(domain.spec_bytes())));
    while j < labels.len()
        invariant
            j <= labels@.len(),
            lv == split_dots(trim_dots(domain.spec_bytes())),
            lv == labels@.map_values(|l: Vec<u8>| l@),
            encode_labels(lv.take(j as int)) == Some(name@),
        decreases labels.len() - j,
    {
        let l = &labels[j];
        proof {
            assert(lv.take(j + 1).drop_last() =~= lv.take(j as int));
            assert(lv.take(j + 1).last() == l@);
        }
        if l.len() == 0 || l.len() > 63 {
            proof {
                lemma_encode_prefix_fails(lv, j + 1);
            }
            return Err(DnsError::InvalidLabel);
        }
        let ghost before = name@;
        name.push(l.len() as u8);
        let mut k: usize = 0;
        while k < l.len()
            invariant
                k <= l@.len(),
                l@.len() <= 63,
                name@ == before.push(l@.len() as u8) + l@.take(k as int),
            decreases l.len() - k,
        {
            name.push(l[k]);
            k += 1;
            assert(name@ =~= before.push(l@.len() as u8) + l@.take(k as int));
        }
        assert(l@.take(l@.len() as int) =~= l@);
        assert(name@ =~= before + seq![l@.len() as u8] + l@);
        j += 1;
    }
    assert(lv.take(labels@.len() as int) =~= lv);
    let mut q: Vec<u8> = Vec::new();
    let idb = u16_be(id);
    q.push(idb[0]);
    q.push(idb[1]);
    q.push(1);
    q.push(0);
    q.push(0);
    q.push(1);
    q.push(0);
    q.push(0);
    q.push(0);
    q.push(0);
    q.push(0);
    q.push(0);
    let ghost header = q@;
    assert(header =~= be16_bytes(id) + seq![1u8, 0, 0, 1, 0, 0, 0, 0, 0, 0]);
    let mut k: usize = 0;
    while k < name.len()
        invariant
            k <= name@.len(),
            q@ == header + name@.take(k as int),
        decreases name.len() - k,
    {
        q.push(name[k]);
        k += 1;
        assert(q@ =~= header + name@.take(k as int));
    }
    assert(name@.take(name@.len() as int) =~= name@);
    let tb = u16_be(t.as_u16());
    q.push(0);
    q.push(tb[0]);
    q.push(tb[1]);
    q.push(0);
    q.push(1);
    assert(q@ =~= header + name@ + seq![0u8] + be16_bytes(record_code(*t)) + seq![0u8, 1]);
    Ok(q)
}


// ---------------------------------------------------------------------------
// Responses
// ---------------------------------------------------------------------------

/// Follows a (possibly compressed) name that starts at `offset`; `cursor`
/// is where the message continues once a pointer has been taken. At most 16
/// pointers are followed.
pub open spec fn skip_name_from(r: Seq<u8>, offset: int, jumped: bool, jumps: int, cursor: int) -> Result<int, DnsError>
    decreases 17 - jumps, r.len() - offset,
{
    if offset < 0 || jumps < 0 || jumps > 16 || offset >= r.len() {
        Err(DnsError::TruncatedName)
    } else {
        let len = r[offset];
        if len >= 0xC0 {
            if offset + 1 >= r.len() {
                Err(DnsError::TruncatedPointer)
            } else {
                let next_cursor = if !jumped { offset + 2 } else { cursor };
                let pointer = (len - 0xC0) * 256 + r[offset + 1];
                if jumps + 1 > 16 {
                    Err(DnsError::TooManyJumps)
                } else {
                    skip_name_from(r, pointer, true, jumps + 1, next_cursor)
                }
            }
        } else if len == 0 {
            Ok(if !jumped { offset + 1 } else { cursor })
        } else if offset + 1 + len >= r.len() {
            Err(DnsError::TruncatedName)
        } else {
            skip_name_from(r, offset + 1 + len, jumped, jumps, cursor)
        }
    }
}

/// Where the message continues after the name at `cursor`.
pub open spec fn spec_skip_name(r: Seq<u8>, cursor: int) -> Result<int, DnsError> {
    skip_name_from(r, cursor, false, 0, cursor)
}

/// Where a name ends lies within the message.
proof fn lemma_skip_name_within(r: Seq<u8>, offset: int, jumped: bool, jumps: int, cursor: int)
    requires
        jumped ==> 0 <= cursor <= r.len(),
    ensures
        skip_name_from(r, offset, jumped, jumps, cursor) matches Ok(c) ==> 0 <= c <= r.len(),
    decreases 17 - jumps, r.len() - offset,
{
    if offset < 0 || jumps < 0 || jumps > 16 || offset >= r.len() {
    } else {
        let len = r[offset];
        if len >= 0xC0 {
            if offset + 1 < r.len() && jumps + 1 <= 16 {
                let next_cursor = if !jumped { offset + 2 } else { cursor };
                let pointer = (len - 0xC0) * 256 + r[offset + 1];
                lemma_skip_name_within(r, pointer, true, jumps + 1, next_cursor);
            }
        } else if len != 0 && offset + 1 + len < r.len() {
            lemma_skip_name_within(r, offset + 1 + len, jumped, jumps, cursor);
        }
    }
}

/// Skips `n` questions from `cursor`.
pub open spec fn skip_questions(r: Seq<u8>, cursor: int, n: nat) -> Result<int, DnsError>
    decreases n,
{
    if n == 0 {
        Ok(cursor)
    } else {
        match spec_skip_name(r, cursor) {
            Err(e) => Err(e),
            Ok(c) => if c + 4 > r.len() {
                Err(DnsError::TruncatedQuestion)
            } else {
                skip_questions(r, c + 4, (n - 1) as nat)
            },
        }
    }
}

/// The octets of an address: four for IPv4, sixteen for IPv6.
pub open spec fn ip_octets(ip: IpAddress) -> Seq<u8> {
    match ip {
        IpAddress::V4(a, b, c, d) => seq![a, b, c, d],
        IpAddress::V6(o) => o@,
    }
}

/// The octets of the address that an answer record carries, when it is of
/// class IN, of the queried type, and of the right length.
pub open spec fn answer_address(r: Seq<u8>, d: int, t: RecordType, class: u16, rtype: u16, rdlen: int) -> Seq<Seq<u8>> {
    if class == 1 && rtype == record_code(t) {
        if t == RecordType::A && rdlen == 4 {
            seq![r.subrange(d, d + 4)]
        } else if t == RecordType::Aaaa && rdlen == 16 {
            seq![r.subrange(d, d + 16)]
        } else {
            Seq::empty()
        }
    } else {
        Seq::empty()
    }
}

/// The addresses of `n` answers from `cursor`.
pub open spec fn read_answers(r: Seq<u8>, cursor: int, n: nat, t: RecordType) -> Result<Seq<Seq<u8>>, DnsError>
    decreases n,
{
    if n == 0 {
        Ok(Seq::empty())
    } else {
        match spec_skip_name(r, cursor) {
            Err(e) => Err(e),
            Ok(c) => if c + 10 > r.len() {
                Err(DnsError::TruncatedAnswer)
            } else {
                let rtype = be16(r[c], r[c + 1]);
                let class = be16(r[c + 2], r[c + 3]);
                let rdlen = be16(r[c + 8], r[c + 9]) as int;
                let d = c + 10;
                if rdlen > r.len() - d {
                    Err(DnsError::TruncatedAnswerData)
                } else {
                    match read_answers(r, d + rdlen, (n - 1) as nat, t) {
                        Err(e) => Err(e),
                        Ok(rest) => Ok(answer_address(r, d, t, class, rtype, rdlen) + rest),
                    }
                }
            },
        }
    }
}

/// The octets of the addresses of type `t` in a response to the query with
/// id `id`, in the order of the answers.
pub open spec fn spec_parse_response(r: Seq<u8>, id: u16, t: RecordType) -> Result<Seq<Seq<u8>>, DnsError> {
    if r.len() < 12 {
        Err(DnsError::ShortResponse)
    } else if be16(r[0], r[1]) != id {
        Err(DnsError::MismatchedId)
    } else {
        let flags = be16(r[2], r[3]);
        if flags < 0x8000 {
            Err(DnsError::NotAResponse)
        } else if flags % 16 != 0 {
            Err(DnsError::ServerError(flags % 16))
        } else {
            match skip_questions(r, 12, be16(r[4], r[5]) as nat) {
                Err(e) => Err(e),
                Ok(c) => read_answers(r, c, be16(r[6], r[7]) as nat, t),
            }
        }
    }
}

pub fn read_be16(r: &[u8], i: usize) -> (v: u16)
    requires
        i + 1 < r.len(),
    ensures
        v == be16(r@[i as int], r@[i + 1]),
{
    (r[i] as u16) * 256 + (r[i + 1] as u16)
}

/// Skips the name at `*cursor`, moving the cursor past it.
pub fn skip_name(r: &[u8], cursor: &mut usize) -> (res: Result<(), DnsError>)
    ensures
        match spec_skip_name(r@, *old(cursor) as int) {
            Ok(c) => res is Ok && *final(cursor) == c,
            Err(e) => res == Err::<(), DnsError>(e),
        },
        spec_skip_name(r@, *old(cursor) as int) matches Ok(c) ==> c <= r@.len(),
{
    let mut jumped = false;
    let mut offset: usize = *cursor;
    let mut jumps: usize = 0;
    let mut next: usize = *cursor;
    let ghost start = *cursor as int;
    proof {
        lemma_skip_name_within(r@, start, false, 0, start);
    }
    loop
        invariant
            jumps <= 16,
            start == *old(cursor) as int,
            *cursor == *old(cursor),
            spec_skip_name(r@, start) matches Ok(c) ==> c <= r@.len(),
            spec_skip_name(r@, start) == skip_name_from(r@, offset as int, jumped, jumps as int, next as int),
            !jumped ==> next == start,
        decreases 17 - jumps, r@.len() - offset,
    {
        if offset >= r.len() {
            return Err(DnsError::TruncatedName);
        }
        let len = r[offset];
        if len >= 0xC0 {
            if offset + 1 >= r.len() {
                return Err(DnsError::TruncatedPointer);
            }
            if !jumped {
                next = offset + 2;
            }
            let pointer: usize = ((len - 0xC0) as usize) * 256 + (r[offset + 1] as usize);
            if jumps + 1 > 16 {
                return Err(DnsError::TooManyJumps);
            }
            offset = pointer;
            jumped = true;
            jumps = jumps + 1;
        } else if len == 0 {
            let c = if !jumped {
                offset + 1
            } else {
                next
            };
            *cursor = c;
            return Ok(());
        } else {
            if len as usize >= r.len() - offset - 1 {
                return Err(DnsError::TruncatedName);
            }
            offset = offset + 1 + (len as usize);
        }
    }
}

/// The addresses of type `t` in a response to the query with id `id`.
pub fn parse_response(r: &[u8], id: u16, t: &RecordType) -> (res: Result<Vec<IpAddress>, DnsError>)
    ensures
        match spec_parse_response(r@, id, *t) {
            Ok(ips) => res is Ok && res->Ok_0@.len() == ips.len() && (forall|i: int|
                0 <= i < ips.len() ==> #[trigger] ip_octets(res->Ok_0@[i]) == ips[i]
                    && (res->Ok_0@[i] is V4 <==> *t == RecordType::A)),
            Err(e) => res is Err && res->Err_0 == e,
        },
{
    if r.len() < 12 {
        return Err(DnsError::ShortResponse);
    }
    if read_be16(r, 0) != id {
        return Err(DnsError::MismatchedId);
    }
    let flags = read_be16(r, 2);
    if flags < 0x8000 {
        return Err(DnsError::NotAResponse);
    }
    if flags % 16 != 0 {
        return Err(DnsError::ServerError(flags % 16));
    }
    let qdcount = read_be16(r, 4);
    let ancount = read_be16(r, 6);
    let mut cursor: usize = 12;
    let mut q: u16 = 0;
    while q < qdcount
        invariant
            q <= qdcount,
            cursor <= r@.len(),
            spec_parse_response(r@, id, *t) == match skip_questions(r@, cursor as int, (qdcount - q) as nat) {
                Err(e) => Err(e),
                Ok(c) => read_answers(r@, c, ancount as nat, *t),
            },
        decreases qdcount - q,
    {
        let ghost c0 = cursor as int;
        match skip_name(r, &mut cursor) {
            Err(e) => {
                return Err(e);
            },
            Ok(()) => {},
        }
        if r.len() - cursor < 4 {
            return Err(DnsError::TruncatedQuestion);
        }
        cursor = cursor + 4;
        q = q + 1;
    }

    let mut ips: Vec<IpAddress> = Vec::new();
    let mut a: u16 = 0;
    while a < ancount
        invariant
            a <= ancount,
            cursor <= r@.len(),
            spec_parse_response(r@, id, *t) == match read_answers(r@, cursor as int, (ancount - a) as nat, *t) {
                Ok(rest) => Ok(ips@.map_values(|ip: IpAddress| ip_octets(ip)) + rest),
                Err(e) => Err(e),
            },
            forall|i: int| 0 <= i < ips@.len() ==> (#[trigger] ips@[i] is V4 <==> *t == RecordType::A),
        decreases ancount - a,
    {
        let ghost c0 = cursor as int;
        match skip_name(r, &mut cursor) {
            Err(e) => {
                return Err(e);
            },
            Ok(()) => {},
        }
        if r.len() - cursor < 10 {
            return Err(DnsError::TruncatedAnswer);
        }
        let rtype = read_be16(r, cursor);
        let class = read_be16(r, cursor + 2);
        let rdlen = read_be16(r, cursor + 8) as usize;
        let d = cursor + 10;
        if rdlen > r.len() - d {
            return Err(DnsError::TruncatedAnswerData);
        }
        let ghost found = answer_address(r@, d as int, *t, class, rtype, rdlen as int);
        let ghost before = ips@.map_values(|ip: IpAddress| ip_octets(ip));
        if class == 1 && rtype == t.as_u16() {
            match t {
                RecordType::A => {
                    if rdlen == 4 {
                        ips.push(IpAddress::V4(r[d], r[d + 1], r[d + 2], r[d + 3]));
                        assert(ip_octets(ips@.last()) =~= r@.subrange(d as int, d + 4));
                    }
                },
                RecordType::Aaaa => {
                    if rdlen == 16 {
                        let mut o = [0u8; 16];
                        let mut k: usize = 0;
                        while k < 16
                            invariant
                                k <= 16,
                                d + 16 <= r.len(),
                                forall|j: int| 0 <= j < k ==> o@[j] == r@[d + j],
                            decreases 16 - k,
                        {
                            o[k] = r[d + k];
                            k += 1;
                        }
                        assert(o@ =~= r@.subrange(d as int, d + 16));
                        ips.push(IpAddress::V6(o));
                    }
                },
            }
        }
        assert(ips@.map_values(|ip: IpAddress| ip_octets(ip)) =~= before + found);
        cursor = d + rdlen;
        a = a + 1;
        proof {
            let n = (ancount - a) as nat;
            assert(read_answers(r@, c0, (n + 1) as nat, *t) == match read_answers(r@, cursor as int, n, *t) {
                Ok(rest) => Ok(found + rest),
                Err(e) => Err(e),
            });
            if let Ok(rest) = read_answers(r@, cursor as int, n, *t) {
                assert(before + found + rest =~= before + (found + rest));
            }
        }
    }
    Ok(ips)
}

// ---------------------------------------------------------------------------
// Resolver
// ---------------------------------------------------------------------------

/// An address and port of a name server.
#[derive(Debug, PartialEq, Eq)]
pub struct SocketAddress {
    pub ip: IpAddress,
    pub port: u16,
}

/// Why a resolver could not be set up or a name not resolved.
#[derive(Debug, PartialEq, Eq, Structural)]
pub enum ResolverError {
    /// A configured name server is neither `address:port` nor an address.
    InvalidNameserver,
    /// No name server gave an address.
    ResolutionFailed,
}

/// The name servers that are asked: the configured ones, or 8.8.8.8 and
/// 8.8.4.4 when none is configured.
pub fn nameserver_texts(configured: &Vec<String>) -> (r: Vec<String>)
    ensures
        crate::text::views(r@) == if configured@.len() == 0 {
            seq!["8.8.8.8"@, "8.8.4.4"@]
        } else {
            crate::text::views(configured@)
        },
{
    if configured.len() == 0 {
        let mut r: Vec<String> = Vec::new();
        r.push(crate::text::string_of(crate::text::chars_of("8.8.8.8").as_slice()));
        r.push(crate::text::string_of(crate::text::chars_of("8.8.4.4").as_slice()));
        assert(crate::text::views(r@) =~= seq!["8.8.8.8"@, "8.8.4.4"@]);
        r
    } else {
        crate::text::copy_strings(configured.as_slice())
    }
}

/// The address of a name server from what its text reads as: a socket
/// address as it is, a bare address on port 53.
pub fn parse_nameserver(as_socket: Option<SocketAddress>, as_ip: Option<IpAddress>) -> (r: Result<SocketAddress, ResolverError>)
    ensures
        match as_socket {
            Some(sa) => r == Ok::<SocketAddress, ResolverError>(sa),
            None => match as_ip {
                Some(ip) => r == Ok::<SocketAddress, ResolverError>(SocketAddress { ip, port: 53 }),
                None => r == Err::<SocketAddress, ResolverError>(ResolverError::InvalidNameserver),
            },
        },
{
    match as_socket {
        Some(sa) => Ok(sa),
        None => match as_ip {
            Some(ip) => Ok(SocketAddress { ip, port: 53 }),
            None => Err(ResolverError::InvalidNameserver),
        },
    }
}

/// The address a nameserver entry gives: its reading as a socket address,
/// else its reading as a bare address on port 53, else none.
pub open spec fn nameserver_of(e: (Option<SocketAddress>, Option<IpAddress>)) -> Option<SocketAddress> {
    match e.0 {
        Some(sa) => Some(sa),
        None => match e.1 {
            Some(ip) => Some(SocketAddress { ip, port: 53 }),
            None => None,
        },
    }
}

/// A DNS resolver: its name servers and the id of the next query.
pub struct DnsResolver {
    pub nameservers: Vec<SocketAddress>,
    pub next_id: u16,
}

impl DnsResolver {
    /// A resolver for the given servers; query ids start at 1.
    pub fn new(nameservers: Vec<SocketAddress>) -> (r: DnsResolver)
        ensures
            r.nameservers == nameservers,
            r.next_id == 1,
    {
        DnsResolver { nameservers, next_id: 1 }
    }

    /// The resolver for the configured nameservers, from what each entry of
    /// `nameserver_texts` reads as (a socket address, an address), in order:
    /// refused when some entry reads as neither.
    pub fn from_parsed(entries: Vec<(Option<SocketAddress>, Option<IpAddress>)>) -> (r: Result<
        DnsResolver,
        ResolverError,
    >)
        ensures
            r is Err <==> exists|i: int| 0 <= i < entries@.len() && #[trigger] nameserver_of(entries@[i]) is None,
            r matches Err(e) ==> e == ResolverError::InvalidNameserver,
            r matches Ok(res) ==> res.next_id == 1 && res.nameservers@.len() == entries@.len() && forall|i: int|
                0 <= i < entries@.len() ==> nameserver_of(#[trigger] entries@[i]) == Some(res.nameservers@[i]),
    {
        let ghost orig = entries@;
        let mut rest = entries;
        let mut out: Vec<SocketAddress> = Vec::new();
        while rest.len() > 0
            invariant
                orig == entries@,
                out@.len() + rest@.len() == orig.len(),
                rest@ == orig.skip(out@.len() as int),
                forall|j: int| 0 <= j < out@.len() ==> nameserver_of(#[trigger] orig[j]) == Some(out@[j]),
            decreases rest.len(),
        {
            let ghost k = out@.len() as int;
            let e = rest.remove(0);
            assert(e == orig[k]);
            assert(rest@ =~= orig.skip(k + 1));
            match parse_nameserver(e.0, e.1) {
                Ok(sa) => {
                    out.push(sa);
                },
                Err(err) => {
                    assert(0 <= k < orig.len());
                    assert(nameserver_of(entries@[k]) is None);
                    return Err(err);
                },
            }
        }
        Ok(DnsResolver { nameservers: out, next_id: 1 })
    }

    /// The id of a new query; ids count up and wrap.
    pub fn take_query_id(&mut self) -> (r: u16)
        ensures
            r == old(self).next_id,
            final(self).next_id == if old(self).next_id == u16::MAX { 0 } else { (old(self).next_id + 1) as u16 },
            final(self).nameservers == old(self).nameservers,
    {
        let id = self.next_id;
        self.next_id = id.wrapping_add(1);
        id
    }
}

/// The addresses of an answer, `None` for a failed query.
pub open spec fn answer_view(a: Option<Vec<IpAddress>>) -> Option<Seq<IpAddress>> {
    match a {
        Some(v) => Some(v@),
        None => None,
    }
}

/// Whether an answer gives addresses.
pub open spec fn found(a: Option<Seq<IpAddress>>) -> bool {
    a matches Some(v) && v.len() > 0
}

/// Where a resolution goes after the answer of the current server:
/// addresses are kept and end the record type; no address moves on to the
/// next server, and past the last server to the next type.
pub open spec fn plan_step(record: int, server: int, ips: Seq<IpAddress>, servers: int, answer: Option<Seq<IpAddress>>) -> (
    int,
    int,
    Seq<IpAddress>,
) {
    if found(answer) {
        (record + 1, 0, ips + answer->Some_0)
    } else if server + 1 < servers {
        (record, server + 1, ips)
    } else {
        (record + 1, 0, ips)
    }
}

/// The addresses of the first answer from server `from` on that gives any.
pub open spec fn first_found(answers: Seq<Option<Seq<IpAddress>>>, from: int) -> Seq<IpAddress>
    decreases answers.len() - from,
{
    if from < 0 || from >= answers.len() {
        Seq::empty()
    } else if found(answers[from]) {
        answers[from]->Some_0
    } else {
        first_found(answers, from + 1)
    }
}

/// A whole resolution from a state, each server answering the A query with
/// `a[i]` and the AAAA query with `aaaa[i]`.
pub open spec fn run_plan(
    record: int,
    server: int,
    ips: Seq<IpAddress>,
    a: Seq<Option<Seq<IpAddress>>>,
    aaaa: Seq<Option<Seq<IpAddress>>>,
) -> Seq<IpAddress>
    decreases 2 - record, a.len() - server,
{
    if record < 0 || record >= 2 || server < 0 || server >= a.len() || aaaa.len() != a.len() {
        ips
    } else {
        let answer = if record == 0 {
            a[server]
        } else {
            aaaa[server]
        };
        let next = plan_step(record, server, ips, a.len() as int, answer);
        run_plan(next.0, next.1, next.2, a, aaaa)
    }
}

proof fn lemma_run_type(record: int, server: int, ips: Seq<IpAddress>, a: Seq<Option<Seq<IpAddress>>>, aaaa: Seq<Option<Seq<IpAddress>>>)
    requires
        0 <= record < 2,
        0 <= server < a.len(),
        aaaa.len() == a.len(),
    ensures
        run_plan(record, server, ips, a, aaaa) == run_plan(
            record + 1,
            0,
            ips + first_found(if record == 0 { a } else { aaaa }, server),
            a,
            aaaa,
        ),
    decreases a.len() - server,
{
    let ans = if record == 0 { a } else { aaaa };
    if !found(ans[server]) && server + 1 < a.len() {
        lemma_run_type(record, server + 1, ips, a, aaaa);
    } else if !found(ans[server]) {
        assert(first_found(ans, server + 1) == Seq::<IpAddress>::empty());
        assert(ips + Seq::<IpAddress>::empty() =~= ips);
    }
}

/// A resolution gives the addresses of the first server whose A answer has
/// any, then those of the first server whose AAAA answer has any, so every
/// IPv4 result comes before every IPv6 one (and `finish` fails exactly when
/// this is empty).
pub proof fn law_resolution_order(a: Seq<Option<Seq<IpAddress>>>, aaaa: Seq<Option<Seq<IpAddress>>>)
    requires
        a.len() > 0,
        aaaa.len() == a.len(),
    ensures
        run_plan(0, 0, Seq::empty(), a, aaaa) == first_found(a, 0) + first_found(aaaa, 0),
{
    lemma_run_type(0, 0, Seq::empty(), a, aaaa);
    lemma_run_type(1, 0, Seq::empty() + first_found(a, 0), a, aaaa);
    assert(Seq::<IpAddress>::empty() + first_found(a, 0) =~= first_found(a, 0));
}

/// Where a resolution stands: the record type being asked (A, then AAAA),
/// the name server being asked, and the addresses found so far.
pub struct ResolvePlan {
    pub record: usize,
    pub server: usize,
    pub ips: Vec<IpAddress>,
}

impl ResolvePlan {
    /// Nothing asked yet.
    pub fn new() -> (r: ResolvePlan)
        ensures
            r.record == 0,
            r.server == 0,
            r.ips@.len() == 0,
    {
        ResolvePlan { record: 0, server: 0, ips: Vec::new() }
    }

    /// The next query to send, among `servers` name servers: a record type
    /// and the position of a server; none once both types are done.
    pub fn next_query(&self, servers: usize) -> (r: Option<(RecordType, usize)>)
        ensures
            self.record < 2 && self.server < servers ==> (r matches Some((t, i)) && i == self.server
                && (t == RecordType::A <==> self.record == 0)),
            !(self.record < 2 && self.server < servers) ==> r is None,
    {
        if self.record >= 2 || self.server >= servers {
            return None;
        }
        let t = if self.record == 0 {
            RecordType::A
        } else {
            RecordType::Aaaa
        };
        Some((t, self.server))
    }

    /// Takes the answer of the current server (`None` when the query
    /// failed): addresses end the record type; no address moves on to the
    /// next server, and past the last server to the next type.
    pub fn record_answer(&mut self, servers: usize, answer: Option<Vec<IpAddress>>)
        requires
            old(self).record < 2,
            old(self).server < servers,
        ensures
            (final(self).record as int, final(self).server as int, final(self).ips@) == plan_step(
                old(self).record as int,
                old(self).server as int,
                old(self).ips@,
                servers as int,
                answer_view(answer),
            ),
    {
        let found = match answer {
            Some(mut a) => {
                if a.len() > 0 {
                    self.ips.append(&mut a);
                    true
                } else {
                    false
                }
            },
            None => false,
        };
        if found || self.server + 1 >= servers {
            self.record = self.record + 1;
            self.server = 0;
        } else {
            self.server = self.server + 1;
        }
    }

    /// The addresses found, or a failure when there are none.
    pub fn finish(self) -> (r: Result<Vec<IpAddress>, ResolverError>)
        ensures
            self.ips@.len() == 0 ==> r == Err::<Vec<IpAddress>, ResolverError>(ResolverError::ResolutionFailed),
            self.ips@.len() > 0 ==> r is Ok && r->Ok_0@ == self.ips@,
    {
        if self.ips.len() == 0 {
            Err(ResolverError::ResolutionFailed)
        } else {
            Ok(self.ips)
        }
    }

    /// The first address found (the first of what `finish` gives), or a
    /// failure when there is none.
    pub fn finish_one(self) -> (r: Result<IpAddress, ResolverError>)
        ensures
            self.ips@.len() == 0 ==> r == Err::<IpAddress, ResolverError>(ResolverError::ResolutionFailed),
            self.ips@.len() > 0 ==> r == Ok::<IpAddress, ResolverError>(self.ips@[0]),
    {
        if self.ips.len() == 0 {
            Err(ResolverError::ResolutionFailed)
        } else {
            let mut ips = self.ips;
            Ok(ips.remove(0))
        }
    }
}


/// A run of labels, each a length byte from 1 to 63 and that many bytes.
pub open spec fn label_chain(e: Seq<u8>) -> bool
    decreases e.len(),
{
    if e.len() == 0 {
        true
    } else {
        1 <= e[0] <= 63 && e.len() >= 1 + e[0] && label_chain(e.skip(1 + e[0]))
    }
}

proof fn lemma_chain_concat(a: Seq<u8>, b: Seq<u8>)
    requires
        label_chain(a),
        label_chain(b),
    ensures
        label_chain(a + b),
    decreases a.len(),
{
    if a.len() > 0 {
        let k = 1 + a[0] as int;
        lemma_chain_concat(a.skip(k), b);
        assert((a + b).skip(k) =~= a.skip(k) + b);
    } else {
        assert(a + b =~= b);
    }
}

proof fn lemma_encoded_chain(labels: Seq<Seq<u8>>)
    ensures
        encode_labels(labels) matches Some(e) ==> label_chain(e),
    decreases labels.len(),
{
    if labels.len() > 0 {
        lemma_encoded_chain(labels.drop_last());
        match encode_labels(labels.drop_last()) {
            None => {},
            Some(prefix) => {
                let l = labels.last();
                if l.len() > 0 && l.len() <= 63 {
                    let piece = seq![l.len() as u8] + l;
                    assert(piece[0] == l.len());
                    assert(piece.skip(1 + piece[0]) =~= Seq::<u8>::empty());
                    assert(label_chain(Seq::<u8>::empty()));
                    assert(label_chain(piece));
                    lemma_chain_concat(prefix, piece);
                    assert(prefix + seq![l.len() as u8] + l =~= prefix + piece);
                }
            },
        }
    }
}

proof fn lemma_chain_skipped(msg: Seq<u8>, e: Seq<u8>, o: int, c: int)
    requires
        label_chain(e),
        0 <= o,
        o + e.len() < msg.len(),
        msg.subrange(o, o + e.len()) == e,
        msg[o + e.len()] == 0,
    ensures
        skip_name_from(msg, o, false, 0, c) == Ok::<int, DnsError>(o + e.len() + 1),
    decreases e.len(),
{
    if e.len() > 0 {
        let k = 1 + e[0] as int;
        assert(msg[o] == e[0]);
        assert(msg.subrange(o + k, o + k + e.skip(k).len()) =~= e.skip(k));
        lemma_chain_skipped(msg, e.skip(k), o + k, c);
    }
}

/// The name that `build_query` writes is read back whole: skipping it from
/// the end of the header lands on the question's type and class.
pub proof fn law_query_name_skipped(domain: Seq<u8>, t: RecordType, id: u16)
    requires
        spec_query(domain, t, id) is Some,
    ensures
        ({
            let q = spec_query(domain, t, id)->Some_0;
            spec_skip_name(q, 12) == Ok::<int, DnsError>(q.len() - 4)
        }),
{
    let labels = split_dots(trim_dots(domain));
    let e = encode_labels(labels)->Some_0;
    lemma_encoded_chain(labels);
    let q = spec_query(domain, t, id)->Some_0;
    let end = 12 + e.len() as int;
    assert(q.subrange(12, end) =~= e);
    assert(q[end] == 0);
    lemma_chain_skipped(q, e, 12, 12);
}


/// The addresses that the answers give have the length of the queried
/// type's address, and there are at most as many as answers.
proof fn lemma_answers_shape(r: Seq<u8>, cursor: int, n: nat, t: RecordType)
    ensures
        read_answers(r, cursor, n, t) matches Ok(ips) ==> ips.len() <= n && forall|i: int|
            0 <= i < ips.len() ==> (#[trigger] ips[i]).len() == (if t == RecordType::A { 4int } else { 16int }),
    decreases n,
{
    if n > 0 {
        lemma_skip_name_within(r, cursor, false, 0, cursor);
        match spec_skip_name(r, cursor) {
            Err(_) => {},
            Ok(c) => {
                if c + 10 <= r.len() {
                    let rdlen = be16(r[c + 8], r[c + 9]) as int;
                    let d = c + 10;
                    if rdlen <= r.len() - d {
                        lemma_answers_shape(r, d + rdlen, (n - 1) as nat, t);
                        let rtype = be16(r[c], r[c + 1]);
                        let class = be16(r[c + 2], r[c + 3]);
                        let head = answer_address(r, d, t, class, rtype, rdlen);
                        assert(head.len() <= 1);
                        assert(forall|i: int| 0 <= i < head.len() ==> (#[trigger] head[i]).len() == (if t
                            == RecordType::A { 4int } else { 16int }));
                    }
                }
            },
        }
    }
}

/// A parsed response gives at most as many addresses as it has answers,
/// each four octets for an A query and sixteen for an AAAA query.
pub proof fn law_response_addresses(r: Seq<u8>, id: u16, t: RecordType)
    ensures
        spec_parse_response(r, id, t) matches Ok(ips) ==> ips.len() <= be16(r[6], r[7]) && forall|i: int|
            0 <= i < ips.len() ==> (#[trigger] ips[i]).len() == (if t == RecordType::A { 4int } else { 16int }),
{
    if r.len() >= 12 {
        match skip_questions(r, 12, be16(r[4], r[5]) as nat) {
            Err(_) => {},
            Ok(c) => {
                lemma_answers_shape(r, c, be16(r[6], r[7]) as nat, t);
            },
        }
    }
}

/// The labels encode exactly when none is empty or longer than 63 bytes.
proof fn lemma_encode_refused(labels: Seq<Seq<u8>>)
    ensures
        encode_labels(labels) is None <==> exists|i: int|
            0 <= i < labels.len() && ((#[trigger] labels[i]).len() == 0 || labels[i].len() > 63),
    decreases labels.len(),
{
    if labels.len() > 0 {
        let init = labels.drop_last();
        lemma_encode_refused(init);
        if exists|i: int| 0 <= i < init.len() && ((#[trigger] init[i]).len() == 0 || init[i].len() > 63) {
            let i = choose|i: int| 0 <= i < init.len() && ((#[trigger] init[i]).len() == 0 || init[i].len() > 63);
            assert(labels[i] == init[i]);
        }
        if exists|i: int| 0 <= i < labels.len() && ((#[trigger] labels[i]).len() == 0 || labels[i].len() > 63) {
            let i = choose|i: int| 0 <= i < labels.len() && ((#[trigger] labels[i]).len() == 0 || labels[i].len() > 63);
            if i < labels.len() - 1 {
                assert(init[i] == labels[i]);
            }
        }
    }
}

/// A query is refused exactly when a label of the name, without its
/// trailing dots, is empty or longer than 63 bytes.
pub proof fn law_query_refused(domain: Seq<u8>, t: RecordType, id: u16)
    ensures
        spec_query(domain, t, id) is None <==> exists|i: int|
            0 <= i < split_dots(trim_dots(domain)).len() && ((#[trigger] split_dots(trim_dots(domain))[i]).len() == 0
                || split_dots(trim_dots(domain))[i].len() > 63),
{
    lemma_encode_refused(split_dots(trim_dots(domain)));
}

/// A trailing dot does not change the query.
pub proof fn law_trailing_dot(domain: Seq<u8>, t: RecordType, id: u16)
    ensures
        spec_query(domain.push(0x2e), t, id) == spec_query(domain, t, id),
{
    assert(domain.push(0x2e).drop_last() =~= domain);
}
/// A response is refused when it is shorter than a header, carries another
/// id, is not marked as a response, or has a nonzero response code; the
/// first of these that holds decides the error.
pub proof fn law_response_refused(r: Seq<u8>, id: u16, t: RecordType)
    ensures
        r.len() < 12 ==> spec_parse_response(r, id, t) == Err::<Seq<Seq<u8>>, DnsError>(DnsError::ShortResponse),
        r.len() >= 12 && be16(r[0], r[1]) != id ==> spec_parse_response(r, id, t) == Err::<Seq<Seq<u8>>, DnsError>(
            DnsError::MismatchedId,
        ),
        r.len() >= 12 && be16(r[0], r[1]) == id && be16(r[2], r[3]) < 0x8000 ==> spec_parse_response(r, id, t) == Err::<
            Seq<Seq<u8>>,
            DnsError,
        >(DnsError::NotAResponse),
        r.len() >= 12 && be16(r[0], r[1]) == id && be16(r[2], r[3]) >= 0x8000 && be16(r[2], r[3]) % 16 != 0
            ==> spec_parse_response(r, id, t) == Err::<Seq<Seq<u8>>, DnsError>(
            DnsError::ServerError(be16(r[2], r[3]) % 16),
        ),
{
}
/// Each answer record contributes to the addresses of a response exactly
/// when it is of class IN and has the queried type's code and data length
/// (A: type 1 with 4 octets; AAAA: type 28 with 16 octets); it then
/// contributes its data octets, ahead of the addresses of the later answers.
pub proof fn law_answer_contributes(r: Seq<u8>, cursor: int, n: nat, t: RecordType)
    requires
        n > 0,
        spec_skip_name(r, cursor) is Ok,
        spec_skip_name(r, cursor)->Ok_0 + 10 <= r.len(),
        be16(r[spec_skip_name(r, cursor)->Ok_0 + 8], r[spec_skip_name(r, cursor)->Ok_0 + 9]) <= r.len() - (
        spec_skip_name(r, cursor)->Ok_0 + 10),
    ensures
        ({
            let c = spec_skip_name(r, cursor)->Ok_0;
            let rtype = be16(r[c], r[c + 1]);
            let class = be16(r[c + 2], r[c + 3]);
            let len = be16(r[c + 8], r[c + 9]) as int;
            let d = c + 10;
            let wanted = class == 1 && if t == RecordType::A {
                rtype == 1 && len == 4
            } else {
                rtype == 28 && len == 16
            };
            read_answers(r, cursor, n, t) == match read_answers(r, d + len, (n - 1) as nat, t) {
                Ok(rest) => Ok(
                    if wanted {
                        seq![r.subrange(d, d + len)] + rest
                    } else {
                        rest
                    },
                ),
                Err(e) => Err::<Seq<Seq<u8>>, DnsError>(e),
            }
        }),
{
    let c = spec_skip_name(r, cursor)->Ok_0;
    let rtype = be16(r[c], r[c + 1]);
    let len = be16(r[c + 8], r[c + 9]) as int;
    if t == RecordType::A {
        assert(record_code(t) == 1);
    } else {
        assert(record_code(t) == 28);
    }
    if rtype == 1 {
        assert(rtype != 28);
    }
}

/// A well-formed response to a query whose single answer is of class IN
/// and of the queried type's code and length parses to exactly that
/// answer's data: for an AAAA query, the 16 octets of an IPv6 address.
pub proof fn law_single_answer(r: Seq<u8>, id: u16, t: RecordType)
    requires
        r.len() >= 12,
        be16(r[0], r[1]) == id,
        be16(r[2], r[3]) >= 0x8000,
        be16(r[2], r[3]) % 16 == 0,
        be16(r[6], r[7]) == 1,
        skip_questions(r, 12, be16(r[4], r[5]) as nat) is Ok,
        ({
            let q = skip_questions(r, 12, be16(r[4], r[5]) as nat)->Ok_0;
            &&& spec_skip_name(r, q) is Ok
            &&& spec_skip_name(r, q)->Ok_0 + 10 <= r.len()
            &&& {
                let c = spec_skip_name(r, q)->Ok_0;
                let len = be16(r[c + 8], r[c + 9]) as int;
                &&& len <= r.len() - (c + 10)
                &&& be16(r[c + 2], r[c + 3]) == 1
                &&& if t == RecordType::A {
                    be16(r[c], r[c + 1]) == 1 && len == 4
                } else {
                    be16(r[c], r[c + 1]) == 28 && len == 16
                }
            }
        }),
    ensures
        ({
            let q = skip_questions(r, 12, be16(r[4], r[5]) as nat)->Ok_0;
            let c = spec_skip_name(r, q)->Ok_0;
            let len = be16(r[c + 8], r[c + 9]) as int;
            &&& spec_parse_response(r, id, t) == Ok::<Seq<Seq<u8>>, DnsError>(seq![r.subrange(c + 10, c + 10 + len)])
            &&& len == if t == RecordType::A { 4int } else { 16int }
        }),
{
    let q = skip_questions(r, 12, be16(r[4], r[5]) as nat)->Ok_0;
    let c = spec_skip_name(r, q)->Ok_0;
    let len = be16(r[c + 8], r[c + 9]) as int;
    law_answer_contributes(r, q, 1, t);
    assert(read_answers(r, c + 10 + len, 0, t) == Ok::<Seq<Seq<u8>>, DnsError>(Seq::empty()));
    assert(seq![r.subrange(c + 10, c + 10 + len)] + Seq::<Seq<u8>>::empty() =~= seq![r.subrange(c + 10, c + 10 + len)]);
}
/// A query is the id big-endian, the flags asking for recursion, one
/// question and no other records, then the name, and last the type (1 for
/// A, 28 for AAAA) and the class IN, each on two bytes big-endian.
pub proof fn law_query_layout(domain: Seq<u8>, t: RecordType, id: u16)
    requires
        spec_query(domain, t, id) is Some,
    ensures
        ({
            let q = spec_query(domain, t, id)->Some_0;
            &&& q.len() >= 17
            &&& q.take(2) == seq![(id / 256) as u8, (id % 256) as u8]
            &&& q.subrange(2, 12) == seq![1u8, 0, 0, 1, 0, 0, 0, 0, 0, 0]
            &&& q.skip(q.len() - 4) == if t == RecordType::A {
                seq![0u8, 1, 0, 1]
            } else {
                seq![0u8, 28, 0, 1]
            }
        }),
{
    let labels = split_dots(trim_dots(domain));
    let e = encode_labels(labels)->Some_0;
    let q = spec_query(domain, t, id)->Some_0;
    assert(q.take(2) =~= seq![(id / 256) as u8, (id % 256) as u8]);
    assert(q.subrange(2, 12) =~= seq![1u8, 0, 0, 1, 0, 0, 0, 0, 0, 0]);
    if t == RecordType::A {
        assert(q.skip(q.len() - 4) =~= seq![0u8, 1, 0, 1]);
    } else {
        assert(q.skip(q.len() - 4) =~= seq![0u8, 28, 0, 1]);
    }
}
} // verus!
