//! SOCKS5: the client side of an upstream SOCKS5 proxy (greeting, method
//! choice, username/password authentication, CONNECT), and the server side
//! of the mixed inbound port (method negotiation, request checks, replies).
use vstd::prelude::*;

use crate::config::ProxyConfig;
use crate::target::{host_bytes, name_bytes, HostAddress, Target};
use crate::text::{copy_opt, decimal, decimal_chars, opt_view, push_chars};
use vstd::utf8::{decode_utf8, valid_utf8};

verus! {

/// An upstream SOCKS5 proxy.
pub struct Socks5Proxy {
    pub name: String,
    pub server: String,
    pub port: u16,
    pub username: Option<String>,
    pub password: Option<String>,
}

/// Why a SOCKS5 exchange failed.
#[derive(Debug, PartialEq, Eq, Structural)]
pub enum Socks5Error {
    /// The proxy answered the greeting with another version.
    InvalidVersion(u8),
    /// The proxy asked for username/password but none is configured.
    CredentialsRequired,
    /// The username or the password is longer than 255 bytes.
    CredentialsTooLong,
    /// The proxy refused every offered method.
    NoAcceptableMethod,
    /// The proxy chose a method that was not offered.
    UnsupportedMethod(u8),
    /// The username/password exchange was refused.
    AuthenticationFailed,
    /// The target host name is longer than 255 bytes.
    HostnameTooLong,
    /// The reply to CONNECT carries another version.
    InvalidReplyVersion(u8),
    /// The proxy refused CONNECT with this status.
    ConnectFailed(u8),
    /// The reply to CONNECT binds an address of an unknown type.
    UnsupportedAddressType(u8),
}

/// The method that the proxy chose.
#[derive(Debug, PartialEq, Eq, Structural)]
pub enum AuthMethod {
    NoAuthentication,
    UsernamePassword,
}

/// How the address bound by a successful CONNECT is laid out after the
/// reply's fourth byte.
#[derive(Debug, PartialEq, Eq, Structural)]
pub enum BoundAddress {
    /// Four octets, then the port.
    Ipv4,
    /// A length byte and that many bytes, then the port.
    Name,
    /// Sixteen octets, then the port.
    Ipv6,
}

/// The password of an entry: the `password` field, else the extra field
/// `password`.
pub open spec fn spec_password(config: ProxyConfig) -> Option<Seq<char>> {
    match config.password {
        Some(p) => Some(p@),
        None => config.spec_extra_text("password"@),
    }
}

pub open spec fn spec_greeting(has_username: bool) -> Seq<u8> {
    if has_username {
        seq![5u8, 2, 0, 2]
    } else {
        seq![5u8, 1, 0]
    }
}

/// The username/password request of RFC 1929.
pub open spec fn spec_auth_request(user: Seq<u8>, pass: Seq<u8>) -> Seq<u8> {
    seq![1u8, user.len() as u8] + user + seq![pass.len() as u8] + pass
}

/// The address part of a CONNECT request.
pub open spec fn spec_address(host: Seq<char>, addr: HostAddress) -> Seq<u8> {
    match addr {
        HostAddress::Ipv4(o) => seq![1u8] + o@,
        HostAddress::Ipv6(o) => seq![4u8] + o@,
        HostAddress::Name => seq![3u8, name_bytes(host).len() as u8] + name_bytes(host),
    }
}

pub open spec fn spec_connect_request(host: Seq<char>, port: u16, addr: HostAddress) -> Seq<u8> {
    seq![5u8, 1, 0] + spec_address(host, addr) + seq![(port / 256) as u8, (port % 256) as u8]
}

/// A name host that does not fit in a length byte.
pub open spec fn name_too_long(host: Seq<char>, addr: HostAddress) -> bool {
    addr is Name && name_bytes(host).len() > 255
}

impl Socks5Proxy {
    pub fn from_config(config: &ProxyConfig) -> (r: Socks5Proxy)
        ensures
            r.name@ == config.name@,
            r.server@ == config.server@,
            r.port == config.port,
            opt_view(r.username) == config.spec_extra_text("username"@),
            opt_view(r.password) == spec_password(*config),
    {
        let username = config.extra_text("username");
        let password = match &config.password {
            Some(p) => Some(p.clone()),
            None => config.extra_text("password"),
        };
        Socks5Proxy {
            name: config.name.clone(),
            server: config.server.clone(),
            port: config.port,
            username,
            password,
        }
    }

    /// The greeting: version 5 and the offered methods, no authentication
    /// always and username/password when a username is configured.
    pub fn greeting(&self) -> (r: Vec<u8>)
        ensures
            r@ == spec_greeting(self.username is Some),
    {
        let mut methods: Vec<u8> = vec![0x00];
        if self.username.is_some() {
            methods.push(0x02);
        }
        let mut g: Vec<u8> = vec![0x05, methods.len() as u8];
        g.append(&mut methods);
        assert(g@ =~= spec_greeting(self.username is Some));
        g
    }

    /// What the proxy's answer `(version, method)` to the greeting leads to.
    pub fn choose_method(&self, version: u8, method: u8) -> (r: Result<AuthMethod, Socks5Error>)
        ensures
            version != 5 ==> r == Err::<AuthMethod, Socks5Error>(Socks5Error::InvalidVersion(version)),
            version == 5 && method == 0 ==> r == Ok::<AuthMethod, Socks5Error>(AuthMethod::NoAuthentication),
            version == 5 && method == 2 ==> r == if self.username is Some {
                Ok::<AuthMethod, Socks5Error>(AuthMethod::UsernamePassword)
            } else {
                Err(Socks5Error::CredentialsRequired)
            },
            version == 5 && method == 0xFF ==> r == Err::<AuthMethod, Socks5Error>(Socks5Error::NoAcceptableMethod),
            version == 5 && method != 0 && method != 2 && method != 0xFF
                ==> r == Err::<AuthMethod, Socks5Error>(Socks5Error::UnsupportedMethod(method)),
    {
        if version != 0x05 {
            return Err(Socks5Error::InvalidVersion(version));
        }
        if method == 0x00 {
            Ok(AuthMethod::NoAuthentication)
        } else if method == 0x02 {
            if self.username.is_some() {
                Ok(AuthMethod::UsernamePassword)
            } else {
                Err(Socks5Error::CredentialsRequired)
            }
        } else if method == 0xFF {
            Err(Socks5Error::NoAcceptableMethod)
        } else {
            Err(Socks5Error::UnsupportedMethod(method))
        }
    }

    /// The username/password request; the password is empty when none is
    /// configured.
    pub fn auth_request(&self) -> (r: Result<Vec<u8>, Socks5Error>)
        ensures
            match self.username {
                None => r == Err::<Vec<u8>, Socks5Error>(Socks5Error::CredentialsRequired),
                Some(u) => {
                    let pass = match self.password {
                        Some(p) => name_bytes(p@),
                        None => Seq::<u8>::empty(),
                    };
                    if name_bytes(u@).len() > 255 || pass.len() > 255 {
                        r == Err::<Vec<u8>, Socks5Error>(Socks5Error::CredentialsTooLong)
                    } else {
                        r is Ok && r->Ok_0@ == spec_auth_request(name_bytes(u@), pass)
                    }
                },
            },
    {
        let user = match &self.username {
            None => {
                return Err(Socks5Error::CredentialsRequired);
            },
            Some(u) => host_bytes(u.as_str()),
        };
        let pass: Vec<u8> = match &self.password {
            Some(p) => host_bytes(p.as_str()),
            None => Vec::new(),
        };
        if user.len() > 255 || pass.len() > 255 {
            return Err(Socks5Error::CredentialsTooLong);
        }
        let mut req: Vec<u8> = vec![0x01, user.len() as u8];
        let mut u = user;
        let ghost ub = u@;
        req.append(&mut u);
        req.push(pass.len() as u8);
        let mut p = pass;
        let ghost pb = p@;
        req.append(&mut p);
        assert(req@ =~= spec_auth_request(ub, pb));
        Ok(req)
    }

    /// The CONNECT request for `target`, whose host reads as `addr`.
    pub fn connect_request(&self, target: &Target, addr: &HostAddress) -> (r: Result<Vec<u8>, Socks5Error>)
        ensures
            name_too_long(target.host@, *addr) ==> r == Err::<Vec<u8>, Socks5Error>(Socks5Error::HostnameTooLong),
            !name_too_long(target.host@, *addr) ==> r is Ok
                && r->Ok_0@ == spec_connect_request(target.host@, target.port, *addr),
    {
        let mut req: Vec<u8> = vec![0x05, 0x01, 0x00];
        match addr {
            HostAddress::Ipv4(o) => {
                req.push(0x01);
                let mut i: usize = 0;
                while i < 4
                    invariant
                        i <= 4,
                        req@ == seq![5u8, 1, 0, 1] + o@.subrange(0, i as int),
                    decreases 4 - i,
                {
                    req.push(o[i]);
                    i += 1;
                    assert(req@ =~= seq![5u8, 1, 0, 1] + o@.subrange(0, i as int));
                }
                assert(o@.subrange(0, 4) =~= o@);
            },
            HostAddress::Ipv6(o) => {
                req.push(0x04);
                let mut i: usize = 0;
                while i < 16
                    invariant
                        i <= 16,
                        req@ == seq![5u8, 1, 0, 4] + o@.subrange(0, i as int),
                    decreases 16 - i,
                {
                    req.push(o[i]);
                    i += 1;
                    assert(req@ =~= seq![5u8, 1, 0, 4] + o@.subrange(0, i as int));
                }
                assert(o@.subrange(0, 16) =~= o@);
            },
            HostAddress::Name => {
                let mut name = host_bytes(target.host.as_str());
                if name.len() > 255 {
                    return Err(Socks5Error::HostnameTooLong);
                }
                req.push(0x03);
                req.push(name.len() as u8);
                req.append(&mut name);
            },
        }
        req.push((target.port / 256) as u8);
        req.push((target.port % 256) as u8);
        assert(req@ =~= spec_connect_request(target.host@, target.port, *addr));
        Ok(req)
    }
}

/// The answer `(version, status)` to the username/password request.
pub fn check_auth_reply(version: u8, status: u8) -> (r: Result<(), Socks5Error>)
    ensures
        r is Ok <==> version == 1 && status == 0,
        r is Err ==> r == Err::<(), Socks5Error>(Socks5Error::AuthenticationFailed),
{
    if version != 0x01 || status != 0x00 {
        Err(Socks5Error::AuthenticationFailed)
    } else {
        Ok(())
    }
}

/// The first four bytes of the reply to CONNECT: version, status, a
/// reserved byte and the type of the bound address.
pub fn check_connect_reply(version: u8, status: u8, atyp: u8) -> (r: Result<BoundAddress, Socks5Error>)
    ensures
        version != 5 ==> r == Err::<BoundAddress, Socks5Error>(Socks5Error::InvalidReplyVersion(version)),
        version == 5 && status != 0 ==> r == Err::<BoundAddress, Socks5Error>(Socks5Error::ConnectFailed(status)),
        version == 5 && status == 0 ==> r == match atyp {
            1 => Ok::<BoundAddress, Socks5Error>(BoundAddress::Ipv4),
            3 => Ok(BoundAddress::Name),
            4 => Ok(BoundAddress::Ipv6),
            _ => Err(Socks5Error::UnsupportedAddressType(atyp)),
        },
{
    if version != 0x05 {
        return Err(Socks5Error::InvalidReplyVersion(version));
    }
    if status != 0x00 {
        return Err(Socks5Error::ConnectFailed(status));
    }
    match atyp {
        1 => Ok(BoundAddress::Ipv4),
        3 => Ok(BoundAddress::Name),
        4 => Ok(BoundAddress::Ipv6),
        _ => Err(Socks5Error::UnsupportedAddressType(atyp)),
    }
}

// ---------------------------------------------------------------------------
// Server side
// ---------------------------------------------------------------------------

/// Why a client's SOCKS5 handshake on the inbound port was refused.
#[derive(Debug, PartialEq, Eq, Structural)]
pub enum InboundSocksError {
    /// The first byte is not version 5.
    NotSocks5,
    /// The client does not offer "no authentication".
    NoAuthUnsupported,
    /// The request carries another version.
    InvalidRequestVersion,
    /// The command is not CONNECT.
    UnsupportedCommand,
    /// The address type is unknown.
    UnsupportedAddressType,
    /// The name in the request is not UTF-8.
    InvalidName,
    /// The request ends before its address and port do.
    Truncated,
}

/// The reply `05 code 00 01 0.0.0.0:0` that the inbound port sends, with
/// code 0 for success.
pub fn socks5_reply(code: u8) -> (r: [u8; 10])
    ensures
        r@ == seq![5u8, code, 0, 1, 0, 0, 0, 0, 0, 0],
{
    let r = [0x05, code, 0x00, 0x01, 0, 0, 0, 0, 0, 0];
    assert(r@ =~= seq![5u8, code, 0, 1, 0, 0, 0, 0, 0, 0]);
    r
}

/// The answer to a client's methods: `05 00` when it offers no
/// authentication, else `05 FF` and the handshake ends.
pub fn negotiate_method(version: u8, methods: &[u8]) -> (r: (Option<[u8; 2]>, Result<(), InboundSocksError>))
    ensures
        version != 5 ==> r == (None::<[u8; 2]>, Err::<(), InboundSocksError>(InboundSocksError::NotSocks5)),
        version == 5 && methods@.contains(0u8) ==> r.1 is Ok && r.0 is Some && r.0->Some_0@ == seq![5u8, 0],
        version == 5 && !methods@.contains(0u8) ==> r.1 == Err::<(), InboundSocksError>(InboundSocksError::NoAuthUnsupported)
            && r.0 is Some && r.0->Some_0@ == seq![5u8, 0xFF],
{
    if version != 0x05 {
        return (None, Err(InboundSocksError::NotSocks5));
    }
    let mut i: usize = 0;
    while i < methods.len()
        invariant
            i <= methods.len(),
            version == 5,
            forall|j: int| 0 <= j < i ==> methods@[j] != 0,
        decreases methods.len() - i,
    {
        if methods[i] == 0 {
            let a = [0x05u8, 0x00];
            assert(a@ =~= seq![5u8, 0]);
            return (Some(a), Ok(()));
        }
        i += 1;
    }
    let a = [0x05u8, 0xFF];
    assert(a@ =~= seq![5u8, 0xFF]);
    (Some(a), Err(InboundSocksError::NoAuthUnsupported))
}

/// The address form of a client's request, and the reply code that a
/// refused request is answered with.
pub fn check_request(version: u8, command: u8, atyp: u8) -> (r: Result<BoundAddress, (u8, InboundSocksError)>)
    ensures
        version != 5 ==> r == Err::<BoundAddress, (u8, InboundSocksError)>((1u8, InboundSocksError::InvalidRequestVersion)),
        version == 5 && command != 1 ==> r == Err::<BoundAddress, (u8, InboundSocksError)>((7u8, InboundSocksError::UnsupportedCommand)),
        version == 5 && command == 1 ==> r == match atyp {
            1 => Ok::<BoundAddress, (u8, InboundSocksError)>(BoundAddress::Ipv4),
            3 => Ok(BoundAddress::Name),
            4 => Ok(BoundAddress::Ipv6),
            _ => Err((8u8, InboundSocksError::UnsupportedAddressType)),
        },
{
    if version != 0x05 {
        return Err((0x01, InboundSocksError::InvalidRequestVersion));
    }
    if command != 0x01 {
        return Err((0x07, InboundSocksError::UnsupportedCommand));
    }
    match atyp {
        1 => Ok(BoundAddress::Ipv4),
        3 => Ok(BoundAddress::Name),
        4 => Ok(BoundAddress::Ipv6),
        _ => Err((0x08, InboundSocksError::UnsupportedAddressType)),
    }
}

/// The host a client asks the inbound port to connect to.
#[derive(Debug, PartialEq, Eq)]
pub enum RequestedHost {
    /// A name, decoded from UTF-8.
    Name(String),
    /// An IPv4 address by its octets.
    Ipv4([u8; 4]),
    /// An IPv6 address by its octets.
    Ipv6([u8; 16]),
}

/// The port of two bytes big-endian.
pub open spec fn port_of(hi: u8, lo: u8) -> u16 {
    (hi as int * 256 + lo as int) as u16
}

/// What the bytes of a request after its address type give, for the
/// address form of that type: the host and the port, or the reason they
/// cannot be read (too few bytes, a name that is not UTF-8).
pub open spec fn spec_request_target(form: BoundAddress, rest: Seq<u8>) -> Result<(Seq<u8>, u16), InboundSocksError> {
    match form {
        BoundAddress::Ipv4 => if rest.len() < 6 {
            Err(InboundSocksError::Truncated)
        } else {
            Ok((rest.take(4), port_of(rest[4], rest[5])))
        },
        BoundAddress::Ipv6 => if rest.len() < 18 {
            Err(InboundSocksError::Truncated)
        } else {
            Ok((rest.take(16), port_of(rest[16], rest[17])))
        },
        BoundAddress::Name => if rest.len() < 1 || rest.len() < 1 + rest[0] + 2 {
            Err(InboundSocksError::Truncated)
        } else if !valid_utf8(rest.subrange(1, 1 + rest[0])) {
            Err(InboundSocksError::InvalidName)
        } else {
            Ok((rest.subrange(1, 1 + rest[0]), port_of(rest[1 + rest[0]], rest[2 + rest[0]])))
        },
    }
}

/// The bytes a requested host was read from.
pub open spec fn host_source(h: RequestedHost) -> Seq<u8> {
    match h {
        RequestedHost::Name(s) => vstd::utf8::encode_utf8(s@),
        RequestedHost::Ipv4(o) => o@,
        RequestedHost::Ipv6(o) => o@,
    }
}

/// The requested host and port from the bytes of a client's request that
/// follow the address type, laid out as `form` says: four octets, sixteen
/// octets, or a length byte and a UTF-8 name; then the port big-endian.
pub fn request_target(form: &BoundAddress, rest: &[u8]) -> (r: Result<(RequestedHost, u16), InboundSocksError>)
    ensures
        match (r, spec_request_target(*form, rest@)) {
            (Ok((h, port)), Ok((bytes, p))) => port == p && host_source(h) == bytes && (h is Name <==> *form is Name)
                && (h is Ipv4 <==> *form is Ipv4) && (h matches RequestedHost::Name(s) ==> s@ == decode_utf8(bytes)),
            (Err(e), Err(f)) => e == f,
            _ => false,
        },
{
    match form {
        BoundAddress::Ipv4 => {
            if rest.len() < 6 {
                return Err(InboundSocksError::Truncated);
            }
            let o: [u8; 4] = [rest[0], rest[1], rest[2], rest[3]];
            assert(o@ =~= rest@.take(4));
            let port: u16 = rest[4] as u16 * 256 + rest[5] as u16;
            Ok((RequestedHost::Ipv4(o), port))
        },
        BoundAddress::Ipv6 => {
            if rest.len() < 18 {
                return Err(InboundSocksError::Truncated);
            }
            let mut o = [0u8; 16];
            let mut i: usize = 0;
            while i < 16
                invariant
                    i <= 16,
                    rest@.len() >= 18,
                    forall|j: int| 0 <= j < i ==> o@[j] == rest@[j],
                decreases 16 - i,
            {
                o[i] = rest[i];
                i += 1;
            }
            assert(o@ =~= rest@.take(16));
            let port: u16 = rest[16] as u16 * 256 + rest[17] as u16;
            Ok((RequestedHost::Ipv6(o), port))
        },
        BoundAddress::Name => {
            if rest.len() < 1 {
                return Err(InboundSocksError::Truncated);
            }
            let n: usize = rest[0] as usize;
            if rest.len() < 1 + n + 2 {
                return Err(InboundSocksError::Truncated);
            }
            let mut name: Vec<u8> = Vec::new();
            let mut i: usize = 0;
            while i < n
                invariant
                    i <= n,
                    n == rest@[0],
                    rest@.len() >= 1 + n + 2,
                    name@ == rest@.subrange(1, 1 + i),
                decreases n - i,
            {
                name.push(rest[1 + i]);
                assert(name@ =~= rest@.subrange(1, 1 + i + 1));
                i += 1;
            }
            let port: u16 = rest[1 + n] as u16 * 256 + rest[2 + n] as u16;
            match crate::codec::utf8_decode(name.as_slice()) {
                None => Err(InboundSocksError::InvalidName),
                Some(s) => {
                    proof {
                        vstd::utf8::decode_utf8_encode_utf8(name@);
                    }
                    Ok((RequestedHost::Name(s), port))
                },
            }
        },
    }
}

/// The dotted decimal text of an IPv4 address.
pub open spec fn ipv4_text(o: Seq<u8>) -> Seq<char> {
    decimal(o[0] as nat) + "."@ + decimal(o[1] as nat) + "."@ + decimal(o[2] as nat) + "."@ + decimal(o[3] as nat)
}

/// The text of an IPv4 address, such as `127.0.0.1`.
pub fn ipv4_address_text(o: &[u8; 4]) -> (r: String)
    ensures
        r@ == ipv4_text(o@),
{
    let mut s = String::new();
    let dot = crate::text::chars_of(".");
    let d0 = decimal_chars(o[0] as u64);
    push_chars(&mut s, d0.as_slice());
    push_chars(&mut s, dot.as_slice());
    let d1 = decimal_chars(o[1] as u64);
    push_chars(&mut s, d1.as_slice());
    push_chars(&mut s, dot.as_slice());
    let d2 = decimal_chars(o[2] as u64);
    push_chars(&mut s, d2.as_slice());
    push_chars(&mut s, dot.as_slice());
    let d3 = decimal_chars(o[3] as u64);
    push_chars(&mut s, d3.as_slice());
    s
}

/// The SOCKS5 CONNECT request is version 5, command 1, a reserved 0, then
/// the address (type 1 and four octets for IPv4, type 4 and sixteen octets
/// for IPv6, type 3, the length and the bytes for a name), then the port
/// big-endian. The type byte tells the three forms apart.
pub proof fn law_connect_request_layout(host: Seq<char>, port: u16, addr: HostAddress)
    ensures
        ({
            let h = spec_connect_request(host, port, addr);
            &&& h.take(3) == seq![5u8, 1u8, 0u8]
            &&& h[3] == 1 <==> addr is Ipv4
            &&& h[3] == 4 <==> addr is Ipv6
            &&& h[3] == 3 <==> addr is Name
            &&& h.skip(h.len() - 2) == seq![(port / 256) as u8, (port % 256) as u8]
            &&& match addr {
                HostAddress::Ipv4(o) => h.len() == 10 && h.subrange(4, 8) == o@,
                HostAddress::Ipv6(o) => h.len() == 22 && h.subrange(4, 20) == o@,
                HostAddress::Name => h[4] == name_bytes(host).len() as u8 && h.subrange(5, h.len() - 2) == name_bytes(
                    host,
                ),
            }
        }),
{
    let h = spec_connect_request(host, port, addr);
    assert(h.take(3) =~= seq![5u8, 1u8, 0u8]);
    assert(h.skip(h.len() - 2) =~= seq![(port / 256) as u8, (port % 256) as u8]);
    match addr {
        HostAddress::Ipv4(o) => {
            assert(h.subrange(4, 8) =~= o@);
        },
        HostAddress::Ipv6(o) => {
            assert(h.subrange(4, 20) =~= o@);
        },
        HostAddress::Name => {
            assert(h.subrange(5, h.len() - 2) =~= name_bytes(host));
        },
    }
}
} // verus!
