//! Connection targets: a host and a port, and how the host reads as an
//! address on the wire.
use vstd::prelude::*;
use vstd::string::StringSliceAdditionalSpecFns;

use crate::text::{decimal, decimal_string, push_str};

verus! {

/// Where an outbound connection goes.
pub struct Target {
    pub host: String,
    pub port: u16,
}

/// The host of a target, read as an IPv4 or IPv6 address where it is one,
/// and as a name otherwise.
#[derive(Debug, PartialEq, Eq)]
pub enum HostAddress {
    Ipv4([u8; 4]),
    Ipv6([u8; 16]),
    Name,
}

/// `host:port`.
pub open spec fn host_port(host: Seq<char>, port: u16) -> Seq<char> {
    host + seq![':'] + decimal(port as nat)
}

impl Target {
    pub fn new(host: String, port: u16) -> (r: Target)
        ensures
            r.host@ == host@,
            r.port == port,
    {
        Target { host, port }
    }

    /// The target as `host:port`.
    pub fn addr(&self) -> (r: String)
        ensures
            r@ == host_port(self.host@, self.port),
    {
        let mut s = String::new();
        push_str(&mut s, self.host.as_str());
        push_str(&mut s, ":");
        let p = decimal_string(self.port as u64);
        push_str(&mut s, p.as_str());
        proof {
            reveal_strlit(":");
            assert(s@ =~= host_port(self.host@, self.port));
        }
        s
    }
}

/// The UTF-8 bytes of a host name.
pub open spec fn name_bytes(host: Seq<char>) -> Seq<u8> {
    vstd::utf8::encode_utf8(host)
}

/// The bytes of `b` appended to `out`.
pub fn push_bytes(out: &mut Vec<u8>, b: &[u8])
    ensures
        final(out)@ == old(out)@ + b@,
{
    let mut i: usize = 0;
    while i < b.len()
        invariant
            i <= b.len(),
            out@ == old(out)@ + b@.subrange(0, i as int),
        decreases b.len() - i,
    {
        out.push(b[i]);
        i += 1;
        assert(out@ =~= old(out)@ + b@.subrange(0, i as int));
    }
    assert(b@.subrange(0, b@.len() as int) =~= b@);
}

/// The bytes of a host name, as a string slice gives them.
pub fn host_bytes(host: &str) -> (r: Vec<u8>)
    ensures
        r@ == name_bytes(host@),
{
    let b = host.as_bytes();
    let mut out: Vec<u8> = Vec::new();
    push_bytes(&mut out, b);
    assert(out@ =~= host.spec_bytes());
    out
}

} // verus!
