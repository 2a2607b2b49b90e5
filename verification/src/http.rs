//! HTTP proxying: the CONNECT request to an upstream HTTP proxy and the
//! check of its answer, and on the inbound port the reading of a client's
//! request head, CONNECT targets, and the rewriting of plain requests for
//! forwarding.
use vstd::prelude::*;
use vstd::utf8::encode_utf8;

use crate::codec::{base64_encode, base64_standard, utf8_decode_lossy, utf8_lossy};
use crate::config::ProxyConfig;
use crate::socks5::spec_password;
use crate::target::{host_bytes, host_port, name_bytes, push_bytes, Target};
use crate::text::{
    chars_contain, chars_of, chars_eq_ignore_case, chars_start_with, contains, decimal, decimal_string,
    eq_ignore_case, lower, lower_chars, opt_view,
    parse_decimal, parse_unsigned, piece_views, push_chars, push_str, rsplit_once, rsplit_once_chars, slice_range,
    split_once, split_once_chars, starts_with, string_of, trim, trim_chars, views, words, words_of,
};
use crate::uri::{opt_text, parse_url, url_host, url_known_port, url_parses, url_path, url_query};

verus! {

/// An upstream HTTP proxy reached with CONNECT.
pub struct HttpProxy {
    pub name: String,
    pub server: String,
    pub port: u16,
    pub username: Option<String>,
    pub password: Option<String>,
}

/// The `Proxy-Authorization` line for a username and password.
pub open spec fn spec_auth_line(user: Seq<char>, pass: Seq<char>) -> Seq<char> {
    "Proxy-Authorization: Basic "@ + base64_standard(encode_utf8(user + seq![':'] + pass)) + "\r\n"@
}

/// A configured password, empty when there is none.
pub open spec fn password_text(p: Option<String>) -> Seq<char> {
    match p {
        Some(p) => p@,
        None => Seq::empty(),
    }
}

/// The CONNECT request for a target `addr`, with an optional authorization
/// line.
pub open spec fn spec_connect_request(addr: Seq<char>, auth: Option<Seq<char>>) -> Seq<char> {
    "CONNECT "@ + addr + " HTTP/1.1\r\nHost: "@ + addr
        + "\r\nProxy-Connection: Keep-Alive\r\nUser-Agent: Titan/0.1\r\n"@ + match auth {
        Some(a) => a,
        None => Seq::empty(),
    } + "\r\n"@
}

/// The four bytes that end a request or response head.
pub open spec fn blank_line_at(b: Seq<u8>, i: int) -> bool {
    0 <= i && i + 4 <= b.len() && b[i] == 13 && b[i + 1] == 10 && b[i + 2] == 13 && b[i + 3] == 10
}

/// A status line that accepts a CONNECT: the answer begins with
/// `HTTP/1.1 200` or `HTTP/1.0 200`.
pub open spec fn connect_accepted(b: Seq<u8>) -> bool {
    b.len() >= 12 && b[0] == 72 && b[1] == 84 && b[2] == 84 && b[3] == 80 && b[4] == 47 && b[5] == 49
        && b[6] == 46 && (b[7] == 49 || b[7] == 48) && b[8] == 32 && b[9] == 50 && b[10] == 48
        && b[11] == 48
}

impl HttpProxy {
    pub fn from_config(config: &ProxyConfig) -> (r: HttpProxy)
        ensures
            r.name@ == config.name@,
            r.server@ == config.server@,
            r.port == config.port,
            opt_view(r.username) == config.spec_extra_text("username"@),
            opt_view(r.password) == spec_password(*config),
    {
        let username = config.extra_text("username");
        let password = match &config.password {
            Some(p) => Some(p.clone()),
            None => config.extra_text("password"),
        };
        HttpProxy {
            name: config.name.clone(),
            server: config.server.clone(),
            port: config.port,
            username,
            password,
        }
    }

    /// The authorization line, when a username is configured; the password
    /// is empty when none is.
    pub fn proxy_authorization_header(&self) -> (r: Option<String>)
        ensures
            match self.username {
                None => r is None,
                Some(u) => r is Some && r->Some_0@ == spec_auth_line(u@, password_text(self.password)),
            },
    {
        let user = match &self.username {
            None => {
                return None;
            },
            Some(u) => u,
        };
        let mut credentials = String::new();
        push_str(&mut credentials, user.as_str());
        push_str(&mut credentials, ":");
        match &self.password {
            Some(p) => push_str(&mut credentials, p.as_str()),
            None => {},
        }
        let bytes = host_bytes(credentials.as_str());
        let encoded = base64_encode(bytes.as_slice());
        let mut line = String::new();
        push_str(&mut line, "Proxy-Authorization: Basic ");
        push_str(&mut line, encoded.as_str());
        push_str(&mut line, "\r\n");
        proof {
            reveal_strlit(":");
            assert(credentials@ =~= user@ + seq![':'] + password_text(self.password));
        }
        Some(line)
    }

    /// The CONNECT request for `target`.
    pub fn connect_request(&self, target: &Target) -> (r: String)
        ensures
            r@ == spec_connect_request(
                host_port(target.host@, target.port),
                match self.username {
                    None => None,
                    Some(u) => Some(spec_auth_line(u@, password_text(self.password))),
                },
            ),
    {
        let addr = target.addr();
        let mut req = String::new();
        push_str(&mut req, "CONNECT ");
        push_str(&mut req, addr.as_str());
        push_str(&mut req, " HTTP/1.1\r\nHost: ");
        push_str(&mut req, addr.as_str());
        push_str(&mut req, "\r\nProxy-Connection: Keep-Alive\r\nUser-Agent: Titan/0.1\r\n");
        let header = self.proxy_authorization_header();
        match &header {
            Some(h) => push_str(&mut req, h.as_str()),
            None => {},
        }
        push_str(&mut req, "\r\n");
        proof {
            reveal_strlit("CONNECT ");
            reveal_strlit(" HTTP/1.1\r\nHost: ");
            reveal_strlit("\r\nProxy-Connection: Keep-Alive\r\nUser-Agent: Titan/0.1\r\n");
            reveal_strlit("\r\n");
            assert(req@ =~= spec_connect_request(addr@, opt_view(header)));
        }
        req
    }
}

/// Whether the answer to CONNECT accepts it: its status line begins with
/// `HTTP/1.1 200` or `HTTP/1.0 200`.
pub fn connect_succeeded(response: &[u8]) -> (r: bool)
    ensures
        r == connect_accepted(response@),
{
    response.len() >= 12 && response[0] == 72 && response[1] == 84 && response[2] == 84
        && response[3] == 80 && response[4] == 47 && response[5] == 49 && response[6] == 46
        && (response[7] == 49 || response[7] == 48) && response[8] == 32 && response[9] == 50
        && response[10] == 48 && response[11] == 48
}

/// Where the head of a request or response ends: the position of the first
/// `\r\n\r\n`.
pub fn find_header_end(buffer: &[u8]) -> (r: Option<usize>)
    ensures
        match r {
            Some(i) => blank_line_at(buffer@, i as int) && forall|j: int| 0 <= j < i ==> !blank_line_at(buffer@, j),
            None => forall|j: int| !blank_line_at(buffer@, j),
        },
{
    if buffer.len() < 4 {
        return None;
    }
    let mut i: usize = 0;
    while i <= buffer.len() - 4
        invariant
            buffer.len() >= 4,
            i <= buffer.len() - 3,
            forall|j: int| 0 <= j < i ==> !blank_line_at(buffer@, j),
        decreases buffer.len() - i,
    {
        if buffer[i] == 13 && buffer[i + 1] == 10 && buffer[i + 2] == 13 && buffer[i + 3] == 10 {
            return Some(i);
        }
        i += 1;
    }
    None
}

/// How far a head that is being read has come.
#[derive(Debug, PartialEq, Eq, Structural)]
pub enum HeadProgress {
    /// The blank line that ends the head has arrived.
    Complete,
    /// More bytes are needed.
    Incomplete,
    /// The bytes so far exceed the limit without a blank line.
    TooLarge,
}

/// The progress of a head read into `buffer`, with at most `limit` bytes
/// read before the blank line: 16 KiB for an upstream proxy's answer to
/// CONNECT, 64 KiB for a client's request.
pub fn head_progress(buffer: &[u8], limit: usize) -> (r: HeadProgress)
    ensures
        (exists|j: int| blank_line_at(buffer@, j)) ==> r == HeadProgress::Complete,
        !(exists|j: int| blank_line_at(buffer@, j)) ==> r == if buffer.len() > limit {
            HeadProgress::TooLarge
        } else {
            HeadProgress::Incomplete
        },
{
    match find_header_end(buffer) {
        Some(_) => HeadProgress::Complete,
        None => if buffer.len() > limit {
            HeadProgress::TooLarge
        } else {
            HeadProgress::Incomplete
        },
    }
}


// ---------------------------------------------------------------------------
// Inbound requests
// ---------------------------------------------------------------------------

/// Why a client's HTTP proxy request was refused.
#[derive(Debug, PartialEq, Eq, Structural)]
pub enum HttpInboundError {
    /// The head has no blank line.
    InvalidRequest,
    MissingMethod,
    MissingUri,
    MissingVersion,
    /// A CONNECT target without `:port`.
    MissingPort,
    /// A CONNECT port that is not a number below 65536.
    InvalidPort,
    /// An absolute URI without a host.
    MissingHost,
    /// A request with neither an absolute URI nor a Host header.
    MissingHostHeader,
}

/// What a client asked the inbound port for.
pub enum InboundHttpRequest {
    /// A tunnel to the target.
    Connect { target: Target },
    /// A plain request, rewritten for the target's origin server.
    Forward { target: Target, initial_data: Vec<u8> },
}

/// The first blank line at or after `i`, or -1.
pub open spec fn first_blank_from(b: Seq<u8>, i: int) -> int
    decreases b.len() - i,
{
    if i < 0 || i + 4 > b.len() {
        -1
    } else if blank_line_at(b, i) {
        i
    } else {
        first_blank_from(b, i + 1)
    }
}

proof fn lemma_first_blank(b: Seq<u8>, i: int, k: int)
    requires
        0 <= i,
        k == -1 || (i <= k && blank_line_at(b, k)),
        forall|j: int| i <= j && (k == -1 || j < k) ==> !blank_line_at(b, j),
    ensures
        first_blank_from(b, i) == k,
    decreases b.len() - i,
{
    if i + 4 <= b.len() && i != k {
        lemma_first_blank(b, i + 1, k);
    }
}

/// Position of the first `\r\n` in `s`, or -1.
pub open spec fn first_crlf(s: Seq<char>) -> int
    decreases s.len(),
{
    if s.len() < 2 {
        -1
    } else if s[0] == '\r' && s[1] == '\n' {
        0
    } else {
        let k = first_crlf(s.drop_first());
        if k < 0 {
            -1
        } else {
            k + 1
        }
    }
}

/// A `\r\n` pair starts at `i`.
pub open spec fn crlf_at(s: Seq<char>, i: int) -> bool {
    0 <= i && i + 1 < s.len() && s[i] == '\r' && s[i + 1] == '\n'
}

proof fn lemma_first_crlf_exact(s: Seq<char>, k: int)
    requires
        k == -1 || crlf_at(s, k),
        forall|i: int| 0 <= i && (k < 0 || i < k) ==> !#[trigger] crlf_at(s, i),
    ensures
        first_crlf(s) == k,
    decreases s.len(),
{
    if s.len() >= 2 && k != 0 {
        assert(!crlf_at(s, 0));
        let t = s.drop_first();
        assert forall|i: int| 0 <= i && (k - 1 < 0 || i < k - 1) implies !#[trigger] crlf_at(t, i) by {
            assert(!crlf_at(s, i + 1));
        }
        if k > 0 {
            assert(crlf_at(t, k - 1));
        }
        lemma_first_crlf_exact(t, if k < 0 { -1 } else { k - 1 });
    }
}

/// The pieces between `\r\n` separators, as `str::split("\r\n")` gives them.
pub open spec fn split_crlf(s: Seq<char>) -> Seq<Seq<char>>
    decreases s.len(),
{
    let k = first_crlf(s);
    if k < 0 {
        seq![s]
    } else {
        proof {
            lemma_first_crlf_bound(s);
        }
        seq![s.take(k)] + split_crlf(s.skip(k + 2))
    }
}

/// `first_crlf` is -1 or starts a pair inside the text.
pub proof fn lemma_first_crlf_bound(s: Seq<char>)
    ensures
        first_crlf(s) == -1 || (0 <= first_crlf(s) && first_crlf(s) + 1 < s.len()),
    decreases s.len(),
{
    if s.len() >= 2 {
        lemma_first_crlf_bound(s.drop_first());
    }
}

/// `str::split("\r\n")` over characters.
fn split_crlf_chars(s: &[char]) -> (r: Vec<Vec<char>>)
    ensures
        piece_views(r@) == split_crlf(s@),
        r@.len() >= 1,
{
    let mut out: Vec<Vec<char>> = Vec::new();
    let mut start: usize = 0;
    let mut i: usize = 0;
    assert(s@.skip(0) =~= s@);
    while s.len() - i >= 2
        invariant
            start <= i <= s.len(),
            split_crlf(s@) == piece_views(out@) + split_crlf(s@.skip(start as int)),
            forall|j: int| start <= j < i ==> !#[trigger] crlf_at(s@, j),
        decreases s.len() - i,
    {
        if s[i] == '\r' && s[i + 1] == '\n' {
            let ghost t = s@.skip(start as int);
            proof {
                assert forall|j: int| 0 <= j && j < i - start implies !#[trigger] crlf_at(t, j) by {
                    assert(!crlf_at(s@, start + j));
                }
                assert(crlf_at(t, i - start));
                lemma_first_crlf_exact(t, i - start);
                assert(t.take(i - start) =~= s@.subrange(start as int, i as int));
                assert(t.skip(i - start + 2) =~= s@.skip(i + 2));
            }
            let piece = slice_range(s, start, i);
            let ghost before = piece_views(out@);
            out.push(piece);
            assert(piece_views(out@) =~= before + seq![s@.subrange(start as int, i as int)]);
            start = i + 2;
            i = i + 2;
        } else {
            i += 1;
        }
    }
    let ghost t = s@.skip(start as int);
    proof {
        assert forall|j: int| 0 <= j implies !#[trigger] crlf_at(t, j) by {
            if start + j < i {
                assert(!crlf_at(s@, start + j));
            }
        }
        lemma_first_crlf_exact(t, -1);
    }
    let last = slice_range(s, start, s.len());
    let ghost before = piece_views(out@);
    out.push(last);
    assert(piece_views(out@) =~= before + seq![t]);
    out
}

/// The host and port of a CONNECT target `host:port`.
pub open spec fn spec_connect_target(authority: Seq<char>) -> Result<(Seq<char>, u16), HttpInboundError> {
    match rsplit_once(authority, ':') {
        None => Err(HttpInboundError::MissingPort),
        Some((h, p)) => match parse_unsigned(p, 65535) {
            None => Err(HttpInboundError::InvalidPort),
            Some(v) => Ok((h, v as u16)),
        },
    }
}

/// The target that a Host header names: `host:port` where the part after
/// the last `:` is a port, else the whole value on port 80.
pub open spec fn spec_host_header(value: Seq<char>) -> (Seq<char>, u16) {
    match rsplit_once(value, ':') {
        Some((h, p)) => match parse_unsigned(p, 65535) {
            Some(v) => (h, v as u16),
            None => (value, 80),
        },
        None => (value, 80),
    }
}

/// The path and query of an absolute URI in origin form.
pub open spec fn origin_form(path: Seq<char>, query: Option<Seq<char>>) -> Seq<char> {
    (if path.len() == 0 {
        "/"@
    } else {
        path
    }) + match query {
        Some(q) => "?"@ + q,
        None => Seq::empty(),
    }
}

/// A header line that is forwarded: not empty, and neither
/// `Proxy-Connection` nor `Proxy-Authorization`.
pub open spec fn forwarded_header(h: Seq<char>) -> bool {
    h.len() > 0 && !starts_with(lower(h), "proxy-connection:"@) && !starts_with(lower(h), "proxy-authorization:"@)
}

/// The forwarded header lines, each ended by `\r\n`.
pub open spec fn header_block(hs: Seq<Seq<char>>) -> Seq<char>
    decreases hs.len(),
{
    if hs.len() == 0 {
        Seq::empty()
    } else {
        header_block(hs.drop_last()) + if forwarded_header(hs.last()) {
            hs.last() + "\r\n"@
        } else {
            Seq::empty()
        }
    }
}

/// Some header line starts with `host:`, in any case.
pub open spec fn has_host_line(hs: Seq<Seq<char>>) -> bool {
    exists|i: int| 0 <= i < hs.len() && starts_with(lower(#[trigger] hs[i]), "host:"@)
}

/// The first header line that holds a `:`, or -1.
pub open spec fn first_colon_line(hs: Seq<Seq<char>>) -> int
    decreases hs.len(),
{
    if hs.len() == 0 {
        -1
    } else if split_once(hs[0], ':') is Some {
        0
    } else {
        let k = first_colon_line(hs.drop_first());
        if k < 0 {
            -1
        } else {
            k + 1
        }
    }
}

/// The target, the request path, and whether a Host line is present.
pub open spec fn forward_route(uri: Seq<char>, hs: Seq<Seq<char>>) -> Result<(Seq<char>, u16, Seq<char>, bool), HttpInboundError> {
    if url_parses(uri) {
        match url_host(uri) {
            None => Err(HttpInboundError::MissingHost),
            Some(h) => Ok((
                h,
                match url_known_port(uri) {
                    Some(p) => p,
                    None => 80u16,
                },
                origin_form(url_path(uri), url_query(uri)),
                has_host_line(hs),
            )),
        }
    } else {
        let i = first_colon_line(hs);
        if i < 0 {
            Err(HttpInboundError::MissingHostHeader)
        } else {
            let (name, value) = split_once(hs[i], ':')->Some_0;
            if eq_ignore_case(name, "host"@) {
                let (h, p) = spec_host_header(trim(value));
                Ok((h, p, uri, true))
            } else {
                Err(HttpInboundError::MissingHostHeader)
            }
        }
    }
}

/// The head of a forwarded request.
pub open spec fn forward_head(method: Seq<char>, path: Seq<char>, version: Seq<char>, host_line: Option<Seq<char>>, hs: Seq<Seq<char>>) -> Seq<char> {
    method + " "@ + path + " "@ + version + "\r\n"@ + match host_line {
        Some(addr) => "Host: "@ + addr + "\r\n"@,
        None => Seq::empty(),
    } + header_block(hs) + "\r\n"@
}

/// The target of a plain request and the bytes sent to it: the rewritten
/// head, then what followed the head.
pub open spec fn spec_forward(method: Seq<char>, uri: Seq<char>, version: Seq<char>, hs: Seq<Seq<char>>, body: Seq<u8>) -> Result<(Seq<char>, u16, Seq<u8>), HttpInboundError> {
    match forward_route(uri, hs) {
        Err(e) => Err(e),
        Ok((h, p, path, has_host)) => Ok((
            h,
            p,
            encode_utf8(forward_head(method, path, version, if has_host { None } else { Some(host_port(h, p)) }, hs)) + body,
        )),
    }
}

/// A client's request: the target, and for a plain request the bytes to
/// send (`None` for CONNECT).
pub open spec fn spec_http_request(raw: Seq<u8>) -> Result<(Seq<char>, u16, Option<Seq<u8>>), HttpInboundError> {
    let end = first_blank_from(raw, 0);
    if end < 0 {
        Err(HttpInboundError::InvalidRequest)
    } else {
        let ls = split_crlf(utf8_lossy(raw.take(end)));
        let w = words(ls[0]);
        if w.len() < 1 {
            Err(HttpInboundError::MissingMethod)
        } else if w.len() < 2 {
            Err(HttpInboundError::MissingUri)
        } else if w.len() < 3 {
            Err(HttpInboundError::MissingVersion)
        } else if eq_ignore_case(w[0], "CONNECT"@) {
            match spec_connect_target(w[1]) {
                Err(e) => Err(e),
                Ok((h, p)) => Ok((h, p, None)),
            }
        } else {
            match spec_forward(w[0], w[1], w[2], ls.skip(1), raw.skip(end + 4)) {
                Err(e) => Err(e),
                Ok((h, p, data)) => Ok((h, p, Some(data))),
            }
        }
    }
}

/// The target of a CONNECT request.
pub fn parse_connect_target(authority: &str) -> (r: Result<Target, HttpInboundError>)
    ensures
        match spec_connect_target(authority@) {
            Ok((h, p)) => r is Ok && r->Ok_0.host@ == h && r->Ok_0.port == p,
            Err(e) => r is Err && r->Err_0 == e,
        },
{
    let a = chars_of(authority);
    match rsplit_once_chars(a.as_slice(), ':') {
        None => Err(HttpInboundError::MissingPort),
        Some((h, p)) => match parse_decimal(p.as_slice(), 65535) {
            None => Err(HttpInboundError::InvalidPort),
            Some(v) => Ok(Target::new(string_of(h.as_slice()), v as u16)),
        },
    }
}

/// The target that a Host header value names.
pub fn parse_host_header(value: &str) -> (r: Target)
    ensures
        (r.host@, r.port) == spec_host_header(value@),
{
    let a = chars_of(value);
    match rsplit_once_chars(a.as_slice(), ':') {
        Some((h, p)) => match parse_decimal(p.as_slice(), 65535) {
            Some(v) => Target::new(string_of(h.as_slice()), v as u16),
            None => Target::new(string_of(a.as_slice()), 80),
        },
        None => Target::new(string_of(a.as_slice()), 80),
    }
}


proof fn lemma_first_colon_line(hs: Seq<Seq<char>>, k: int)
    requires
        k == -1 || (0 <= k < hs.len() && split_once(hs[k], ':') is Some),
        forall|i: int| 0 <= i < hs.len() && (k < 0 || i < k) ==> split_once(#[trigger] hs[i], ':') is None,
    ensures
        first_colon_line(hs) == k,
    decreases hs.len(),
{
    if hs.len() > 0 && k != 0 {
        let t = hs.drop_first();
        assert(split_once(hs[0], ':') is None);
        assert forall|i: int| 0 <= i < t.len() && (k - 1 < 0 || i < k - 1) implies split_once(#[trigger] t[i], ':') is None by {
            assert(t[i] == hs[i + 1]);
        }
        if k > 0 {
            assert(t[k - 1] == hs[k]);
        }
        lemma_first_colon_line(t, if k < 0 { -1 } else { k - 1 });
    }
}

proof fn lemma_first_colon_line_found(hs: Seq<Seq<char>>)
    ensures
        first_colon_line(hs) >= 0 ==> first_colon_line(hs) < hs.len() && split_once(hs[first_colon_line(hs)], ':') is Some,
    decreases hs.len(),
{
    if hs.len() > 0 && split_once(hs[0], ':') is None {
        lemma_first_colon_line_found(hs.drop_first());
        let k = first_colon_line(hs.drop_first());
        if k >= 0 {
            assert(hs.drop_first()[k] == hs[k + 1]);
        }
    }
}

/// The first header line that holds a `:`.
fn find_colon_line(headers: &[String]) -> (r: Option<usize>)
    ensures
        match r {
            Some(i) => i < headers.len() && first_colon_line(views(headers@)) == i,
            None => first_colon_line(views(headers@)) == -1,
        },
{
    let ghost hs = views(headers@);
    let mut i: usize = 0;
    while i < headers.len()
        invariant
            i <= headers.len(),
            hs == views(headers@),
            forall|j: int| 0 <= j < i ==> split_once(#[trigger] hs[j], ':') is None,
        decreases headers.len() - i,
    {
        let c = chars_of(headers[i].as_str());
        if split_once_chars(c.as_slice(), ':').is_some() {
            proof {
                lemma_first_colon_line(hs, i as int);
            }
            return Some(i);
        }
        i += 1;
    }
    proof {
        lemma_first_colon_line(hs, -1);
    }
    None
}

/// Whether a header line starts with `host:` in any case.
fn has_host_header(headers: &[String]) -> (r: bool)
    ensures
        r == has_host_line(views(headers@)),
{
    let prefix = chars_of("host:");
    let mut i: usize = 0;
    while i < headers.len()
        invariant
            i <= headers.len(),
            prefix@ == "host:"@,
            forall|j: int| 0 <= j < i ==> !starts_with(lower(#[trigger] views(headers@)[j]), "host:"@),
        decreases headers.len() - i,
    {
        let c = chars_of(headers[i].as_str());
        let l = lower_chars(c.as_slice());
        if chars_start_with(l.as_slice(), prefix.as_slice()) {
            assert(starts_with(lower(views(headers@)[i as int]), "host:"@));
            return true;
        }
        i += 1;
    }
    false
}

/// The forwarded header lines, each ended by `\r\n`.
fn forwarded_headers(headers: &[String]) -> (r: Vec<char>)
    ensures
        r@ == header_block(views(headers@)),
{
    let ghost hs = views(headers@);
    let conn = chars_of("proxy-connection:");
    let auth = chars_of("proxy-authorization:");
    let crlf = chars_of("\r\n");
    let mut out: Vec<char> = Vec::new();
    let mut i: usize = 0;
    while i < headers.len()
        invariant
            i <= headers.len(),
            hs == views(headers@),
            conn@ == "proxy-connection:"@,
            auth@ == "proxy-authorization:"@,
            crlf@ == "\r\n"@,
            out@ == header_block(hs.take(i as int)),
        decreases headers.len() - i,
    {
        let c = chars_of(headers[i].as_str());
        let l = lower_chars(c.as_slice());
        assert(hs.take(i + 1).drop_last() =~= hs.take(i as int));
        if c.len() > 0 && !chars_start_with(l.as_slice(), conn.as_slice()) && !chars_start_with(l.as_slice(), auth.as_slice()) {
            let ghost before = out@;
            push_all(&mut out, c.as_slice());
            push_all(&mut out, crlf.as_slice());
            assert(out@ =~= before + (hs[i as int] + "\r\n"@));
        }
        i += 1;
    }
    assert(hs.take(headers.len() as int) =~= hs);
    out
}

/// Appends characters to a character vector.
fn push_all(out: &mut Vec<char>, v: &[char])
    ensures
        final(out)@ == old(out)@ + v@,
{
    let mut i: usize = 0;
    while i < v.len()
        invariant
            i <= v.len(),
            out@ == old(out)@ + v@.take(i as int),
        decreases v.len() - i,
    {
        out.push(v[i]);
        i += 1;
        assert(out@ =~= old(out)@ + v@.take(i as int));
    }
    assert(v@.take(v.len() as int) =~= v@);
}

/// The target, the request path and whether a Host line is present, for a
/// plain request.
fn route_forward(uri: &str, headers: &[String]) -> (r: Result<(Target, Vec<char>, bool), HttpInboundError>)
    ensures
        match forward_route(uri@, views(headers@)) {
            Ok((h, p, path, has_host)) => r is Ok && r->Ok_0.0.host@ == h && r->Ok_0.0.port == p
                && r->Ok_0.1@ == path && r->Ok_0.2 == has_host,
            Err(e) => r is Err && r->Err_0 == e,
        },
{
    match parse_url(uri) {
        Some(u) => {
            let host = match u.host {
                None => {
                    return Err(HttpInboundError::MissingHost);
                },
                Some(h) => h,
            };
            let port = match u.known_port {
                Some(p) => p,
                None => 80,
            };
            let mut path: Vec<char> = Vec::new();
            let pc = chars_of(u.path.as_str());
            if pc.len() == 0 {
                path.push('/');
            } else {
                push_all(&mut path, pc.as_slice());
            }
            match &u.query {
                Some(q) => {
                    path.push('?');
                    let qc = chars_of(q.as_str());
                    push_all(&mut path, qc.as_slice());
                },
                None => {},
            }
            proof {
                reveal_strlit("/");
                reveal_strlit("?");
                assert(path@ =~= origin_form(u.path@, opt_text(u.query)));
            }
            Ok((Target::new(host, port), path, has_host_header(headers)))
        },
        None => {
            let i = match find_colon_line(headers) {
                None => {
                    return Err(HttpInboundError::MissingHostHeader);
                },
                Some(i) => i,
            };
            let c = chars_of(headers[i].as_str());
            proof {
                lemma_first_colon_line_found(views(headers@));
            }
            let (name, value) = match split_once_chars(c.as_slice(), ':') {
                Some(nv) => nv,
                None => {
                    return Err(HttpInboundError::MissingHostHeader);
                },
            };
            let host_name = chars_of("host");
            if !chars_eq_ignore_case(name.as_slice(), host_name.as_slice()) {
                return Err(HttpInboundError::MissingHostHeader);
            }
            let v = trim_chars(value.as_slice());
            let vs = string_of(v.as_slice());
            let t = parse_host_header(vs.as_str());
            Ok((t, chars_of(uri), true))
        },
    }
}

/// The target of a plain request and the bytes to send to it: the request
/// line with the path in origin form, a Host line when the client sent
/// none, the client's header lines without the proxy's own, a blank line,
/// and the body bytes that came with the head.
pub fn rewrite_http_forward_request(method: &str, uri: &str, version: &str, headers: &[String], body: &[u8]) -> (r: Result<(Target, Vec<u8>), HttpInboundError>)
    ensures
        match spec_forward(method@, uri@, version@, views(headers@), body@) {
            Ok((h, p, data)) => r is Ok && r->Ok_0.0.host@ == h && r->Ok_0.0.port == p && r->Ok_0.1@ == data,
            Err(e) => r is Err && r->Err_0 == e,
        },
{
    let ghost hs = views(headers@);
    let (target, path, has_host) = match route_forward(uri, headers) {
        Err(e) => {
            return Err(e);
        },
        Ok(t) => t,
    };
    let mut head: Vec<char> = chars_of(method);
    head.push(' ');
    push_all(&mut head, path.as_slice());
    head.push(' ');
    let vc = chars_of(version);
    push_all(&mut head, vc.as_slice());
    head.push('\r');
    head.push('\n');
    let ghost host_line: Option<Seq<char>> = if has_host { None } else { Some(host_port(target.host@, target.port)) };
    if !has_host {
        let hl = chars_of("Host: ");
        push_all(&mut head, hl.as_slice());
        let addr = target.addr();
        let ac = chars_of(addr.as_str());
        push_all(&mut head, ac.as_slice());
        head.push('\r');
        head.push('\n');
    }
    let block = forwarded_headers(headers);
    push_all(&mut head, block.as_slice());
    head.push('\r');
    head.push('\n');
    proof {
        reveal_strlit(" ");
        reveal_strlit("\r\n");
        reveal_strlit("Host: ");
        assert(head@ =~= forward_head(method@, path@, version@, host_line, hs));
    }
    let text = string_of(head.as_slice());
    let mut data = host_bytes(text.as_str());
    push_bytes(&mut data, body);
    Ok((target, data))
}


/// A copy of `b[lo..hi]`.
pub fn byte_range(b: &[u8], lo: usize, hi: usize) -> (r: Vec<u8>)
    requires
        lo <= hi <= b.len(),
    ensures
        r@ == b@.subrange(lo as int, hi as int),
{
    let mut r: Vec<u8> = Vec::new();
    let mut i: usize = lo;
    while i < hi
        invariant
            lo <= i <= hi <= b.len(),
            r@ == b@.subrange(lo as int, i as int),
        decreases hi - i,
    {
        r.push(b[i]);
        i += 1;
        assert(r@ =~= b@.subrange(lo as int, i as int));
    }
    r
}

/// Strings of character pieces `ps[from..]`.
fn strings_from(ps: &Vec<Vec<char>>, from: usize) -> (r: Vec<String>)
    requires
        from <= ps@.len(),
    ensures
        views(r@) == piece_views(ps@).skip(from as int),
{
    let mut r: Vec<String> = Vec::new();
    let mut i: usize = from;
    while i < ps.len()
        invariant
            from <= i <= ps@.len(),
            views(r@) == piece_views(ps@).subrange(from as int, i as int),
        decreases ps.len() - i,
    {
        let s = string_of(ps[i].as_slice());
        let ghost before = views(r@);
        r.push(s);
        assert(views(r@) =~= before.push(ps@[i as int]@));
        assert(piece_views(ps@).subrange(from as int, i + 1) =~= piece_views(ps@).subrange(from as int, i as int).push(ps@[i as int]@));
        i += 1;
    }
    assert(piece_views(ps@).subrange(from as int, ps@.len() as int) =~= piece_views(ps@).skip(from as int));
    r
}

/// Reads a client's request head on the inbound port: a CONNECT request
/// names a tunnel target, any other request is rewritten for the target's
/// origin server.
pub fn parse_http_proxy_request(raw: &[u8]) -> (r: Result<InboundHttpRequest, HttpInboundError>)
    ensures
        match spec_http_request(raw@) {
            Ok((h, p, None)) => r matches Ok(InboundHttpRequest::Connect { target }) && target.host@ == h && target.port == p,
            Ok((h, p, Some(data))) => r matches Ok(InboundHttpRequest::Forward { target, initial_data })
                && target.host@ == h && target.port == p && initial_data@ == data,
            Err(e) => r is Err && r->Err_0 == e,
        },
{
    let end = match find_header_end(raw) {
        None => {
            proof {
                lemma_first_blank(raw@, 0, -1);
            }
            return Err(HttpInboundError::InvalidRequest);
        },
        Some(e) => e,
    };
    proof {
        lemma_first_blank(raw@, 0, end as int);
    }
    assert(end + 4 <= raw.len());
    let head = byte_range(raw, 0, end);
    assert(head@ =~= raw@.take(end as int));
    let text = utf8_decode_lossy(head.as_slice());
    let tc = chars_of(text.as_str());
    let ls = split_crlf_chars(tc.as_slice());
    let w = words_of(ls[0].as_slice());
    if w.len() < 1 {
        return Err(HttpInboundError::MissingMethod);
    }
    if w.len() < 2 {
        return Err(HttpInboundError::MissingUri);
    }
    if w.len() < 3 {
        return Err(HttpInboundError::MissingVersion);
    }
    let connect = chars_of("CONNECT");
    if chars_eq_ignore_case(w[0].as_slice(), connect.as_slice()) {
        let uri = string_of(w[1].as_slice());
        return match parse_connect_target(uri.as_str()) {
            Ok(target) => Ok(InboundHttpRequest::Connect { target }),
            Err(e) => Err(e),
        };
    }
    let method = string_of(w[0].as_slice());
    let uri = string_of(w[1].as_slice());
    let version = string_of(w[2].as_slice());
    let headers = strings_from(&ls, 1);
    let body = byte_range(raw, end + 4, raw.len());
    assert(body@ =~= raw@.skip(end + 4));
    match rewrite_http_forward_request(method.as_str(), uri.as_str(), version.as_str(), headers.as_slice(), body.as_slice()) {
        Ok((target, initial_data)) => Ok(InboundHttpRequest::Forward { target, initial_data }),
        Err(e) => Err(e),
    }
}

/// The answer of the inbound port to a request it cannot serve: a status
/// line, the length, `Connection: close`, and a body `"{status} {reason}\n"`.
pub open spec fn error_response_text(status: u16, reason: Seq<char>) -> Seq<char> {
    let body = decimal(status as nat) + " "@ + reason + "\n"@;
    "HTTP/1.1 "@ + decimal(status as nat) + " "@ + reason + "\r\nContent-Length: "@ + decimal(encode_utf8(body).len())
        + "\r\nConnection: close\r\n\r\n"@ + body
}

/// The text of that answer for a status and a reason.
pub fn http_error_response(status: u16, reason: &str) -> (r: String)
    ensures
        r@ == error_response_text(status, reason@),
{
    let code = decimal_string(status as u64);
    let mut body = String::new();
    push_str(&mut body, code.as_str());
    push_str(&mut body, " ");
    push_str(&mut body, reason);
    push_str(&mut body, "\n");
    let len = host_bytes(body.as_str()).len();
    let len_text = decimal_string(len as u64);
    let mut r = String::new();
    push_str(&mut r, "HTTP/1.1 ");
    push_str(&mut r, code.as_str());
    push_str(&mut r, " ");
    push_str(&mut r, reason);
    push_str(&mut r, "\r\nContent-Length: ");
    push_str(&mut r, len_text.as_str());
    push_str(&mut r, "\r\nConnection: close\r\n\r\n");
    push_str(&mut r, body.as_str());
    proof {
        reveal_strlit(" ");
        reveal_strlit("\n");
        reveal_strlit("HTTP/1.1 ");
        reveal_strlit("\r\nContent-Length: ");
        reveal_strlit("\r\nConnection: close\r\n\r\n");
        assert(r@ =~= "HTTP/1.1 "@ + decimal(status as nat) + " "@ + reason@ + "\r\nContent-Length: "@
            + decimal(encode_utf8(body@).len()) + "\r\nConnection: close\r\n\r\n"@ + body@);
    }
    r
}

/// The answer of the inbound port to a CONNECT it has opened.
pub fn connect_established() -> (r: Vec<u8>)
    ensures
        r@ == encode_utf8("HTTP/1.1 200 Connection Established\r\n\r\n"@),
{
    host_bytes("HTTP/1.1 200 Connection Established\r\n\r\n")
}

/// Whether the message of a failed inbound connection only tells that the
/// client went away (an early close, a reset or an abort).
pub fn is_benign_inbound_error(message: &str) -> (r: bool)
    ensures
        r == (contains(lower(message@), "client closed connection"@)
            || contains(lower(message@), "unexpected eof"@)
            || contains(lower(message@), "software caused connection abort"@)
            || contains(lower(message@), "connection reset by peer"@)
            || contains(lower(message@), "os error 10053"@)
            || contains(lower(message@), "os error 10054"@)),
{
    let m = chars_of(message);
    let l = lower_chars(m.as_slice());
    let a = chars_of("client closed connection");
    let b = chars_of("unexpected eof");
    let c = chars_of("software caused connection abort");
    let d = chars_of("connection reset by peer");
    let e = chars_of("os error 10053");
    let f = chars_of("os error 10054");
    chars_contain(l.as_slice(), a.as_slice()) || chars_contain(l.as_slice(), b.as_slice())
        || chars_contain(l.as_slice(), c.as_slice()) || chars_contain(l.as_slice(), d.as_slice())
        || chars_contain(l.as_slice(), e.as_slice()) || chars_contain(l.as_slice(), f.as_slice())
}


/// The protocol a client speaks on the mixed inbound port, told by its
/// first byte.
#[derive(Debug, Clone, Copy, PartialEq, Eq, Structural)]
pub enum InboundProtocol {
    Socks5,
    Http,
}

/// A first byte of 5 starts a SOCKS5 greeting; anything else is HTTP.
pub fn detect_protocol(first_byte: u8) -> (r: InboundProtocol)
    ensures
        r == if first_byte == 5 {
            InboundProtocol::Socks5
        } else {
            InboundProtocol::Http
        },
{
    if first_byte == 0x05 {
        InboundProtocol::Socks5
    } else {
        InboundProtocol::Http
    }
}

/// What a client is told when no outbound could be reached for it: SOCKS5
/// reply code 1 (general failure), or `502 Bad Gateway`.
pub fn connect_failure_reply(protocol: InboundProtocol) -> (r: Vec<u8>)
    ensures
        protocol == InboundProtocol::Socks5 ==> r@ == seq![5u8, 1, 0, 1, 0, 0, 0, 0, 0, 0],
        protocol == InboundProtocol::Http ==> r@ == encode_utf8(error_response_text(502, "Bad Gateway"@)),
{
    match protocol {
        InboundProtocol::Socks5 => {
            let a = crate::socks5::socks5_reply(1);
            let mut v: Vec<u8> = Vec::new();
            crate::target::push_bytes(&mut v, &a);
            assert(v@ =~= seq![5u8, 1, 0, 1, 0, 0, 0, 0, 0, 0]);
            v
        },
        InboundProtocol::Http => {
            let text = http_error_response(502, "Bad Gateway");
            host_bytes(text.as_str())
        },
    }
}

/// A CONNECT target written as `host:port` by `Target::addr` reads back as
/// the same host and port.
pub proof fn law_connect_target_round_trip(host: Seq<char>, port: u16)
    ensures
        spec_connect_target(host_port(host, port)) == Ok::<(Seq<char>, u16), HttpInboundError>((host, port)),
{
    crate::text::lemma_host_port_split(host, port as nat);
    crate::text::lemma_parse_decimal_form(port as nat, 65535);
}

/// A Host header written as `host:port` names that host and port.
pub proof fn law_host_header_round_trip(host: Seq<char>, port: u16)
    ensures
        spec_host_header(host_port(host, port)) == (host, port),
{
    crate::text::lemma_host_port_split(host, port as nat);
    crate::text::lemma_parse_decimal_form(port as nat, 65535);
}

} // verus!
