//! VLESS over TCP: the settings a VLESS entry is used with, the request
//! header, and the reading of the response header.
use vstd::prelude::*;

use crate::config::ProxyConfig;
use crate::target::{host_bytes, name_bytes, HostAddress, Target};
use crate::text::{chars_of, eq_ignore_ascii_case, eq_ignore_case, opt_view, views};

verus! {

/// An upstream VLESS server.
pub struct VlessProxy {
    pub name: String,
    pub server: String,
    pub port: u16,
    pub uuid: String,
    pub tls: bool,
    pub sni: Option<String>,
    pub skip_cert_verify: bool,
    pub alpn: Vec<Vec<u8>>,
    pub flow: Option<String>,
    pub network: Option<String>,
}

/// Why a VLESS connection cannot be made or its answer is refused.
#[derive(Debug, PartialEq, Eq, Structural)]
pub enum VlessError {
    MissingUuid,
    /// A transport other than TCP.
    UnsupportedNetwork,
    /// A flow is configured; none is supported.
    UnsupportedFlow,
    /// The uuid does not parse.
    InvalidUuid,
    /// The target host name is longer than 255 bytes.
    HostnameTooLong,
    /// The response header carries another version.
    InvalidResponseVersion(u8),
}

/// The 16 bytes of a UUID in text form, if it parses.
pub uninterp spec fn uuid_parsed(s: Seq<char>) -> Option<Seq<u8>>;

/// `uuid::Uuid::parse_str` and `Uuid::as_bytes`. Claimed: the bytes are
/// `uuid_parsed` of the text, `None` where the crate returns an error.
#[verifier::external_body]
pub(crate) fn parse_uuid(s: &str) -> (r: Option<[u8; 16]>)
    ensures
        match r {
            Some(b) => uuid_parsed(s@) == Some(b@),
            None => uuid_parsed(s@) is None,
        },
{
    match uuid::Uuid::parse_str(s) {
        Ok(u) => Some(*u.as_bytes()),
        Err(_) => None,
    }
}

/// The ALPN protocols offered when none are configured.
pub open spec fn default_alpn() -> Seq<Seq<u8>> {
    seq![seq![104u8, 50], seq![104u8, 116, 116, 112, 47, 49, 46, 49]]
}

pub open spec fn byte_views(v: Seq<Vec<u8>>) -> Seq<Seq<u8>> {
    v.map_values(|b: Vec<u8>| b@)
}

/// The UTF-8 bytes of each text.
pub open spec fn texts_bytes(v: Seq<Seq<char>>) -> Seq<Seq<u8>> {
    v.map_values(|s: Seq<char>| name_bytes(s))
}

/// The ALPN protocols of an entry, as bytes.
pub open spec fn spec_alpn(alpn: Option<Vec<String>>) -> Seq<Seq<u8>> {
    match alpn {
        Some(v) => texts_bytes(views(v@)),
        None => default_alpn(),
    }
}

/// The configured transport is TCP: none, empty, or `tcp` in any case.
pub open spec fn tcp_network(network: Option<String>) -> bool {
    match network {
        None => true,
        Some(n) => n@.len() == 0 || eq_ignore_case(n@, "tcp"@),
    }
}

/// The address part of a VLESS request.
pub open spec fn spec_vless_address(host: Seq<char>, addr: HostAddress) -> Seq<u8> {
    match addr {
        HostAddress::Ipv4(o) => seq![1u8] + o@,
        HostAddress::Ipv6(o) => seq![3u8] + o@,
        HostAddress::Name => seq![2u8, name_bytes(host).len() as u8] + name_bytes(host),
    }
}

/// The request header: version 0, the user id, no addons, the TCP command,
/// the port big-endian and the address.
pub open spec fn spec_vless_request(id: Seq<u8>, host: Seq<char>, port: u16, addr: HostAddress) -> Seq<u8> {
    seq![0u8] + id + seq![0u8, 1u8, (port / 256) as u8, (port % 256) as u8] + spec_vless_address(host, addr)
}

/// The ALPN protocols of an entry, as bytes.
pub fn alpn_protocols(alpn: &Option<Vec<String>>) -> (r: Vec<Vec<u8>>)
    ensures
        byte_views(r@) == spec_alpn(*alpn),
{
    match alpn {
        None => {
            let r: Vec<Vec<u8>> = vec![vec![104u8, 50], vec![104u8, 116, 116, 112, 47, 49, 46, 49]];
            assert(byte_views(r@) =~= default_alpn());
            r
        },
        Some(v) => {
            let mut r: Vec<Vec<u8>> = Vec::new();
            let mut i: usize = 0;
            while i < v.len()
                invariant
                    i <= v.len(),
                    byte_views(r@) == texts_bytes(views(v@).take(i as int)),
                decreases v.len() - i,
            {
                let b = host_bytes(v[i].as_str());
                let ghost before = byte_views(r@);
                r.push(b);
                assert(before.len() == i);
                assert(r@.len() == i + 1);
                assert(byte_views(r@).len() == i + 1);
                assert forall|j: int| 0 <= j <= i implies #[trigger] byte_views(r@)[j] == texts_bytes(views(v@).take(i + 1))[j] by {
                    if j < i {
                        assert(byte_views(r@)[j] == before[j]);
                    }
                }
                assert(byte_views(r@) =~= texts_bytes(views(v@).take(i + 1)));
                i += 1;
            }
            assert(views(v@).take(v.len() as int) =~= views(v@));
            r
        },
    }
}

impl VlessProxy {
    pub fn from_config(config: &ProxyConfig) -> (r: VlessProxy)
        ensures
            r.name@ == config.name@,
            r.server@ == config.server@,
            r.port == config.port,
            r.uuid@ == match config.uuid {
                Some(u) => u@,
                None => Seq::<char>::empty(),
            },
            r.tls == config.tls,
            opt_view(r.sni) == opt_view(config.sni),
            r.skip_cert_verify == config.skip_cert_verify,
            byte_views(r.alpn@) == spec_alpn(config.alpn),
            opt_view(r.flow) == opt_view(config.flow),
            opt_view(r.network) == opt_view(config.network),
    {
        VlessProxy {
            name: config.name.clone(),
            server: config.server.clone(),
            port: config.port,
            uuid: match &config.uuid {
                Some(u) => u.clone(),
                None => String::new(),
            },
            tls: config.tls,
            sni: match &config.sni {
                Some(s) => Some(s.clone()),
                None => None,
            },
            skip_cert_verify: config.skip_cert_verify,
            alpn: alpn_protocols(&config.alpn),
            flow: match &config.flow {
                Some(s) => Some(s.clone()),
                None => None,
            },
            network: match &config.network {
                Some(s) => Some(s.clone()),
                None => None,
            },
        }
    }

    /// Whether the entry can be used: it has a uuid, its transport is TCP,
    /// and it sets no flow.
    pub fn validate(&self) -> (r: Result<(), VlessError>)
        ensures
            self.uuid@.len() == 0 ==> r == Err::<(), VlessError>(VlessError::MissingUuid),
            self.uuid@.len() != 0 && !tcp_network(self.network) ==> r == Err::<(), VlessError>(VlessError::UnsupportedNetwork),
            self.uuid@.len() != 0 && tcp_network(self.network) && self.flow is Some ==> r == Err::<(), VlessError>(VlessError::UnsupportedFlow),
            self.uuid@.len() != 0 && tcp_network(self.network) && self.flow is None ==> r is Ok,
    {
        let u = chars_of(self.uuid.as_str());
        if u.len() == 0 {
            return Err(VlessError::MissingUuid);
        }
        match &self.network {
            Some(n) => {
                let c = chars_of(n.as_str());
                if c.len() != 0 && !eq_ignore_ascii_case(n.as_str(), "tcp") {
                    return Err(VlessError::UnsupportedNetwork);
                }
            },
            None => {},
        }
        if self.flow.is_some() {
            return Err(VlessError::UnsupportedFlow);
        }
        Ok(())
    }

    /// The request header for `target`, whose host reads as `addr`.
    pub fn request_header(&self, target: &Target, addr: &HostAddress) -> (r: Result<Vec<u8>, VlessError>)
        ensures
            match uuid_parsed(self.uuid@) {
                None => r == Err::<Vec<u8>, VlessError>(VlessError::InvalidUuid),
                Some(id) => if addr is Name && name_bytes(target.host@).len() > 255 {
                    r == Err::<Vec<u8>, VlessError>(VlessError::HostnameTooLong)
                } else {
                    r is Ok && r->Ok_0@ == spec_vless_request(id, target.host@, target.port, *addr)
                },
            },
    {
        let id = match parse_uuid(self.uuid.as_str()) {
            None => {
                return Err(VlessError::InvalidUuid);
            },
            Some(id) => id,
        };
        let mut req: Vec<u8> = vec![0x00];
        let mut i: usize = 0;
        while i < 16
            invariant
                i <= 16,
                req@ == seq![0u8] + id@.take(i as int),
            decreases 16 - i,
        {
            req.push(id[i]);
            i += 1;
            assert(req@ =~= seq![0u8] + id@.take(i as int));
        }
        assert(id@.take(16) =~= id@);
        req.push(0x00);
        req.push(0x01);
        req.push((target.port / 256) as u8);
        req.push((target.port % 256) as u8);
        let ghost prefix = req@;
        match addr {
            HostAddress::Ipv4(o) => {
                req.push(0x01);
                let mut k: usize = 0;
                while k < 4
                    invariant
                        k <= 4,
                        req@ == prefix + seq![1u8] + o@.take(k as int),
                    decreases 4 - k,
                {
                    req.push(o[k]);
                    k += 1;
                    assert(req@ =~= prefix + seq![1u8] + o@.take(k as int));
                }
                assert(o@.take(4) =~= o@);
            },
            HostAddress::Ipv6(o) => {
                req.push(0x03);
                let mut k: usize = 0;
                while k < 16
                    invariant
                        k <= 16,
                        req@ == prefix + seq![3u8] + o@.take(k as int),
                    decreases 16 - k,
                {
                    req.push(o[k]);
                    k += 1;
                    assert(req@ =~= prefix + seq![3u8] + o@.take(k as int));
                }
                assert(o@.take(16) =~= o@);
            },
            HostAddress::Name => {
                let mut name = host_bytes(target.host.as_str());
                if name.len() > 255 {
                    return Err(VlessError::HostnameTooLong);
                }
                req.push(0x02);
                req.push(name.len() as u8);
                req.append(&mut name);
            },
        }
        assert(req@ =~= spec_vless_request(id@, target.host@, target.port, *addr));
        Ok(req)
    }
}

/// How many more bytes the response header needs after `buf`: two for the
/// version and the length of the addons, then the addons.
pub open spec fn header_need(buf: Seq<u8>) -> Result<nat, VlessError> {
    if buf.len() < 2 {
        Ok((2 - buf.len()) as nat)
    } else if buf[0] != 0 {
        Err(VlessError::InvalidResponseVersion(buf[0]))
    } else if buf.len() < 2 + buf[1] {
        Ok((2 + buf[1] - buf.len()) as nat)
    } else {
        Ok(0)
    }
}

/// The response header of a VLESS connection as it is read: until it is
/// complete, reads go to it and not to the caller.
pub struct VlessResponseHeader {
    pub pending: bool,
    pub buffer: Vec<u8>,
}

impl VlessResponseHeader {
    /// Nothing read yet.
    pub fn new() -> (r: VlessResponseHeader)
        ensures
            r.pending,
            r.buffer@.len() == 0,
    {
        VlessResponseHeader { pending: true, buffer: Vec::new() }
    }

    /// How many bytes the next read may take for the header (0 once it is
    /// complete), or why the header is refused.
    pub fn need(&self) -> (r: Result<usize, VlessError>)
        ensures
            !self.pending ==> r == Ok::<usize, VlessError>(0),
            self.pending ==> match header_need(self.buffer@) {
                Ok(n) => r == Ok::<usize, VlessError>(n as usize),
                Err(e) => r == Err::<usize, VlessError>(e),
            },
    {
        if !self.pending {
            return Ok(0);
        }
        let len = self.buffer.len();
        if len < 2 {
            return Ok(2 - len);
        }
        let version = self.buffer[0];
        if version != 0 {
            return Err(VlessError::InvalidResponseVersion(version));
        }
        let total: usize = 2 + self.buffer[1] as usize;
        if len < total {
            Ok(total - len)
        } else {
            Ok(0)
        }
    }

    /// Takes bytes that were read for the header; the header is done once
    /// nothing more is needed.
    pub fn push(&mut self, data: &[u8])
        requires
            old(self).pending,
            header_need(old(self).buffer@) matches Ok(n) && data@.len() <= n,
        ensures
            final(self).buffer@ == old(self).buffer@ + data@,
            final(self).pending <==> header_need(final(self).buffer@) != Ok::<nat, VlessError>(0),
    {
        let mut i: usize = 0;
        while i < data.len()
            invariant
                i <= data.len(),
                self.pending,
                self.buffer@ == old(self).buffer@ + data@.take(i as int),
            decreases data.len() - i,
        {
            self.buffer.push(data[i]);
            i += 1;
            assert(self.buffer@ =~= old(self).buffer@ + data@.take(i as int));
        }
        assert(data@.take(data.len() as int) =~= data@);
        assert(header_need(self.buffer@) matches Ok(n) ==> n <= 257);
        let more = match self.need() {
            Ok(n) => n != 0,
            Err(_) => true,
        };
        self.pending = more;
    }
}


/// A response header of version 0 with `n` addon bytes.
pub open spec fn response_header(n: u8, addons: Seq<u8>) -> Seq<u8> {
    seq![0u8, n] + addons
}

/// A response header of version 0 with `n` addon bytes is complete once
/// exactly `2 + n` bytes have arrived, and not before.
pub proof fn law_response_header_length(n: u8, addons: Seq<u8>)
    requires
        addons.len() == n,
    ensures
        header_need(response_header(n, addons)) == Ok::<nat, VlessError>(0),
        forall|k: int| 0 <= k < 2 + n ==> (#[trigger] header_need(response_header(n, addons).take(k)) matches Ok(m) && m > 0),
{
    let h = response_header(n, addons);
    assert forall|k: int| 0 <= k < 2 + n implies (#[trigger] header_need(h.take(k)) matches Ok(m) && m > 0) by {
        if k >= 2 {
            assert(h.take(k)[0] == 0u8);
            assert(h.take(k)[1] == n);
        }
    }
}

/// The VLESS request header is version 0, the sixteen bytes of the user id,
/// no addons, command 1 (TCP), the port big-endian, then the address: for
/// an IPv4 target the byte 1 and its four octets, for an IPv6 target the
/// byte 3 and its sixteen octets, for a name the byte 2, the name's length
/// and its bytes. The address type byte tells the three forms apart.
pub proof fn law_vless_request_layout(id: Seq<u8>, host: Seq<char>, port: u16, addr: HostAddress)
    requires
        id.len() == 16,
    ensures
        ({
            let h = spec_vless_request(id, host, port, addr);
            &&& h.take(21) == seq![0u8] + id + seq![0u8, 1u8, (port / 256) as u8, (port % 256) as u8]
            &&& h[21] == 1 <==> addr is Ipv4
            &&& h[21] == 3 <==> addr is Ipv6
            &&& h[21] == 2 <==> addr is Name
            &&& match addr {
                HostAddress::Ipv4(o) => h.len() == 26 && h.skip(22) == o@,
                HostAddress::Ipv6(o) => h.len() == 38 && h.skip(22) == o@,
                HostAddress::Name => h[22] == name_bytes(host).len() as u8 && h.skip(23) == name_bytes(host),
            }
        }),
{
    let h = spec_vless_request(id, host, port, addr);
    let head = seq![0u8] + id + seq![0u8, 1u8, (port / 256) as u8, (port % 256) as u8];
    assert(h.take(21) =~= head);
    match addr {
        HostAddress::Ipv4(o) => {
            assert(h.skip(22) =~= o@);
        },
        HostAddress::Ipv6(o) => {
            assert(h.skip(22) =~= o@);
        },
        HostAddress::Name => {
            assert(h.skip(23) =~= name_bytes(host));
        },
    }
}
} // verus!
