//! VMess over TCP: the settings a VMess entry is used with, the choice of
//! data cipher, the plain request header with its FNV-1a checksum, the
//! authentication id, and the length masks and frames of the data stream.
use vstd::prelude::*;

use crate::clock::now_unix;
use crate::config::ProxyConfig;
use crate::target::{host_bytes, name_bytes, HostAddress, Target};
use crate::text::{chars_of, eq_ignore_ascii_case, eq_ignore_case, lower, lower_chars, opt_view, str_eq};
use crate::vless::{alpn_protocols, byte_views, spec_alpn, tcp_network};

use aes::cipher::{BlockEncrypt, KeyInit};

verus! {

/// The cipher of the data stream.
#[derive(Debug, Clone, Copy, PartialEq, Eq, Structural)]
pub enum DataCipher {
    Aes128Gcm,
    ChaCha20Poly1305,
    /// No encryption (`none`).
    Unencrypted,
}

/// An upstream VMess server.
pub struct VMessProxy {
    pub name: String,
    pub server: String,
    pub port: u16,
    pub uuid: String,
    pub cipher: DataCipher,
    pub tls: bool,
    pub sni: Option<String>,
    pub skip_cert_verify: bool,
    pub alpn: Vec<Vec<u8>>,
    pub network: Option<String>,
}

/// Why a VMess connection cannot be made.
#[derive(Debug, PartialEq, Eq, Structural)]
pub enum VmessError {
    MissingUuid,
    /// A transport other than TCP.
    UnsupportedNetwork,
    /// The target host name is longer than 255 bytes.
    HostnameTooLong,
    /// The cipher refused to seal the request.
    SealFailed,
    /// The configured UUID does not parse.
    InvalidUuid,
}

/// The cipher that a configured name selects: ChaCha20-Poly1305 by its two
/// names, no encryption by `none`, and AES-128-GCM otherwise (no name,
/// `auto`, `any`, `aes-128-gcm`, and any unknown name).
pub open spec fn spec_cipher(name: Option<Seq<char>>) -> DataCipher {
    let c = lower(
        match name {
            Some(n) => n,
            None => "auto"@,
        },
    );
    if c == "chacha20-poly1305"@ || c == "chacha20-ietf-poly1305"@ {
        DataCipher::ChaCha20Poly1305
    } else if c == "none"@ {
        DataCipher::Unencrypted
    } else {
        DataCipher::Aes128Gcm
    }
}

/// The security number of a cipher in the request header.
pub open spec fn cipher_method(c: DataCipher) -> u8 {
    match c {
        DataCipher::Aes128Gcm => 3,
        DataCipher::ChaCha20Poly1305 => 4,
        DataCipher::Unencrypted => 5,
    }
}

impl DataCipher {
    pub fn from_config(cipher: Option<&str>) -> (r: DataCipher)
        ensures
            r == spec_cipher(
                match cipher {
                    Some(c) => Some(c@),
                    None => None,
                },
            ),
    {
        let name = match cipher {
            Some(c) => c,
            None => "auto",
        };
        let n = chars_of(name);
        let c = lower_chars(n.as_slice());
        let chacha = chars_of("chacha20-poly1305");
        let chacha_ietf = chars_of("chacha20-ietf-poly1305");
        let none = chars_of("none");
        if crate::text::chars_eq(c.as_slice(), chacha.as_slice()) || crate::text::chars_eq(c.as_slice(), chacha_ietf.as_slice()) {
            DataCipher::ChaCha20Poly1305
        } else if crate::text::chars_eq(c.as_slice(), none.as_slice()) {
            DataCipher::Unencrypted
        } else {
            DataCipher::Aes128Gcm
        }
    }

    /// The security number in the request header.
    pub fn method(&self) -> (r: u8)
        ensures
            r == cipher_method(*self),
    {
        match self {
            DataCipher::Aes128Gcm => 3,
            DataCipher::ChaCha20Poly1305 => 4,
            DataCipher::Unencrypted => 5,
        }
    }
}

impl VMessProxy {
    pub fn from_config(config: &ProxyConfig) -> (r: VMessProxy)
        ensures
            r.name@ == config.name@,
            r.server@ == config.server@,
            r.port == config.port,
            r.uuid@ == match config.uuid {
                Some(u) => u@,
                None => Seq::<char>::empty(),
            },
            r.cipher == spec_cipher(opt_view(config.cipher)),
            r.tls == config.tls,
            opt_view(r.sni) == opt_view(config.sni),
            r.skip_cert_verify == config.skip_cert_verify,
            byte_views(r.alpn@) == spec_alpn(config.alpn),
            opt_view(r.network) == opt_view(config.network),
    {
        let cipher = match &config.cipher {
            Some(c) => DataCipher::from_config(Some(c.as_str())),
            None => DataCipher::from_config(None),
        };
        VMessProxy {
            name: config.name.clone(),
            server: config.server.clone(),
            port: config.port,
            uuid: match &config.uuid {
                Some(u) => u.clone(),
                None => String::new(),
            },
            cipher,
            tls: config.tls,
            sni: match &config.sni {
                Some(s) => Some(s.clone()),
                None => None,
            },
            skip_cert_verify: config.skip_cert_verify,
            alpn: alpn_protocols(&config.alpn),
            network: match &config.network {
                Some(s) => Some(s.clone()),
                None => None,
            },
        }
    }

    /// Whether the entry can be used: it has a uuid and its transport is
    /// TCP.
    pub fn validate(&self) -> (r: Result<(), VmessError>)
        ensures
            self.uuid@.len() == 0 ==> r == Err::<(), VmessError>(VmessError::MissingUuid),
            self.uuid@.len() != 0 && !tcp_network(self.network) ==> r == Err::<(), VmessError>(VmessError::UnsupportedNetwork),
            self.uuid@.len() != 0 && tcp_network(self.network) ==> r is Ok,
    {
        let u = chars_of(self.uuid.as_str());
        if u.len() == 0 {
            return Err(VmessError::MissingUuid);
        }
        match &self.network {
            Some(n) => {
                let c = chars_of(n.as_str());
                if c.len() != 0 && !eq_ignore_ascii_case(n.as_str(), "tcp") {
                    return Err(VmessError::UnsupportedNetwork);
                }
            },
            None => {},
        }
        Ok(())
    }
}

/// The address part of a VMess request header.
pub open spec fn spec_vmess_address(host: Seq<char>, addr: HostAddress) -> Seq<u8> {
    match addr {
        HostAddress::Ipv4(o) => seq![1u8] + o@,
        HostAddress::Ipv6(o) => seq![3u8] + o@,
        HostAddress::Name => seq![2u8, name_bytes(host).len() as u8] + name_bytes(host),
    }
}

/// The address of `target`, whose host reads as `addr`.
pub fn encode_target(target: &Target, addr: &HostAddress) -> (r: Result<Vec<u8>, VmessError>)
    ensures
        addr is Name && name_bytes(target.host@).len() > 255 ==> r == Err::<Vec<u8>, VmessError>(VmessError::HostnameTooLong),
        !(addr is Name && name_bytes(target.host@).len() > 255) ==> r is Ok && r->Ok_0@ == spec_vmess_address(target.host@, *addr),
{
    let mut out: Vec<u8> = Vec::new();
    match addr {
        HostAddress::Ipv4(o) => {
            out.push(0x01);
            let mut k: usize = 0;
            while k < 4
                invariant
                    k <= 4,
                    out@ == seq![1u8] + o@.take(k as int),
                decreases 4 - k,
            {
                out.push(o[k]);
                k += 1;
                assert(out@ =~= seq![1u8] + o@.take(k as int));
            }
            assert(o@.take(4) =~= o@);
        },
        HostAddress::Ipv6(o) => {
            out.push(0x03);
            let mut k: usize = 0;
            while k < 16
                invariant
                    k <= 16,
                    out@ == seq![3u8] + o@.take(k as int),
                decreases 16 - k,
            {
                out.push(o[k]);
                k += 1;
                assert(out@ =~= seq![3u8] + o@.take(k as int));
            }
            assert(o@.take(16) =~= o@);
        },
        HostAddress::Name => {
            let mut name = host_bytes(target.host.as_str());
            if name.len() > 255 {
                return Err(VmessError::HostnameTooLong);
            }
            out.push(0x02);
            out.push(name.len() as u8);
            out.append(&mut name);
        },
    }
    assert(out@ =~= spec_vmess_address(target.host@, *addr));
    Ok(out)
}

/// One step of 32-bit FNV-1a.
pub open spec fn fnv_step(h: u32, b: u8) -> u32 {
    vstd::wrapping::u32_specs::wrapping_mul(h ^ (b as u32), 16777619u32)
}

/// The 32-bit FNV-1a hash of some bytes.
pub open spec fn fnv1a(s: Seq<u8>) -> u32
    decreases s.len(),
{
    if s.len() == 0 {
        0x811c9dc5u32
    } else {
        fnv_step(fnv1a(s.drop_last()), s.last())
    }
}

/// 32-bit FNV-1a.
pub fn fnv1a32(data: &[u8]) -> (r: u32)
    ensures
        r == fnv1a(data@),
{
    let mut h: u32 = 0x811c9dc5;
    let mut i: usize = 0;
    while i < data.len()
        invariant
            i <= data.len(),
            h == fnv1a(data@.take(i as int)),
        decreases data.len() - i,
    {
        assert(data@.take(i + 1).drop_last() =~= data@.take(i as int));
        h = (h ^ (data[i] as u32)).wrapping_mul(16777619);
        i += 1;
    }
    assert(data@.take(data.len() as int) =~= data@);
    h
}

/// Four bytes big-endian.
pub open spec fn be32(v: u32) -> Seq<u8> {
    seq![(v / 0x1000000) as u8, ((v / 0x10000) % 256) as u8, ((v / 256) % 256) as u8, (v % 256) as u8]
}

/// The plain request header: version 1; the 33 random bytes (data IV, data
/// key and response check byte); option 5 (chunked stream, length masks);
/// the padding length over the security number; a reserved 0; the TCP
/// command; the port big-endian; the address; the padding; and the FNV-1a
/// checksum of all that, big-endian.
pub open spec fn spec_request_header(random: Seq<u8>, margin: u8, padding: Seq<u8>, method: u8, port: u16, address: Seq<u8>) -> Seq<u8> {
    let body = request_body(random, margin, padding, method, port, address);
    body + be32(fnv1a(body))
}

/// The request header without its checksum.
pub open spec fn request_body(random: Seq<u8>, margin: u8, padding: Seq<u8>, method: u8, port: u16, address: Seq<u8>) -> Seq<u8> {
    seq![1u8] + random + seq![5u8, (margin * 16 + method) as u8, 0u8, 1u8, (port / 256) as u8, (port % 256) as u8]
        + address + padding
}

/// Assembles the plain request header from its random parts.
pub fn request_header(random: &[u8], margin: u8, padding: &[u8], method: u8, port: u16, address: &[u8]) -> (r: Vec<u8>)
    requires
        random@.len() == 33,
        margin < 16,
        method < 16,
        padding@.len() == margin,
    ensures
        r@ == spec_request_header(random@, margin, padding@, method, port, address@),
{
    let mut h: Vec<u8> = vec![1u8];
    crate::target::push_bytes(&mut h, random);
    let fields: [u8; 6] = [0x05, margin * 16 + method, 0, 1, (port / 256) as u8, (port % 256) as u8];
    crate::target::push_bytes(&mut h, &fields);
    crate::target::push_bytes(&mut h, address);
    crate::target::push_bytes(&mut h, padding);
    assert(fields@ =~= seq![5u8, (margin * 16 + method) as u8, 0u8, 1u8, (port / 256) as u8, (port % 256) as u8]);
    assert(h@ =~= request_body(random@, margin, padding@, method, port, address@));
    let sum = fnv1a32(h.as_slice());
    let tail: [u8; 4] = [(sum / 0x1000000) as u8, ((sum / 0x10000) % 256) as u8, ((sum / 256) % 256) as u8, (sum % 256) as u8];
    assert(tail@ =~= be32(sum));
    crate::target::push_bytes(&mut h, &tail);
    h
}

/// `n` bytes from the thread-local generator (`rand::rng().fill_bytes`).
/// Only the length is claimed: the bytes are random.
#[verifier::external_body]
pub(crate) fn random_bytes(n: usize) -> (r: Vec<u8>)
    ensures
        r@.len() == n,
{
    let mut v = vec![0u8; n];
    rand::RngCore::fill_bytes(&mut rand::rng(), &mut v);
    v
}

/// A random byte (`rand::random::<u8>`). Nothing is claimed of it.
#[verifier::external_body]
fn random_u8() -> u8 {
    rand::random::<u8>()
}

impl VMessProxy {
    /// A fresh plain request header for `target`, whose host reads as
    /// `addr`: random IV, key and check byte, and 0 to 15 random bytes of
    /// padding.
    pub fn new_request_header(&self, target: &Target, addr: &HostAddress) -> (r: Result<Vec<u8>, VmessError>)
        ensures
            addr is Name && name_bytes(target.host@).len() > 255 ==> r == Err::<Vec<u8>, VmessError>(VmessError::HostnameTooLong),
            !(addr is Name && name_bytes(target.host@).len() > 255) ==> r is Ok && exists|random: Seq<u8>, margin: u8, padding: Seq<u8>|
                random.len() == 33 && margin < 16 && padding.len() == margin
                && #[trigger] spec_request_header(random, margin, padding, cipher_method(self.cipher), target.port,
                    spec_vmess_address(target.host@, *addr)) == r->Ok_0@,
    {
        let address = match encode_target(target, addr) {
            Err(e) => {
                return Err(e);
            },
            Ok(a) => a,
        };
        let random = random_bytes(33);
        let margin = random_u8() % 16;
        let padding = random_bytes(margin as usize);
        let h = request_header(random.as_slice(), margin, padding.as_slice(), self.cipher.method(), target.port, address.as_slice());
        proof {
            let _ = spec_request_header(random@, margin, padding@, cipher_method(self.cipher), target.port, address@);
        }
        Ok(h)
    }
}

// ---------------------------------------------------------------------------
// Authentication id
// ---------------------------------------------------------------------------

/// The CRC-32C checksum of some bytes.
pub uninterp spec fn crc32c_of(b: Seq<u8>) -> u32;

/// `crc32c::crc32c`. Claimed: the result is `crc32c_of` the bytes.
#[verifier::external_body]
fn crc32c(b: &[u8]) -> (r: u32)
    ensures
        r == crc32c_of(b@),
{
    crc32c::crc32c(b)
}

/// The AES-128 encryption of one 16-byte block under a 16-byte key.
pub uninterp spec fn aes128_block(key: Seq<u8>, block: Seq<u8>) -> Seq<u8>;

/// `aes::Aes128::new` and `encrypt_block`. Claimed: the result is
/// `aes128_block` of the key and the block.
#[verifier::external_body]
fn aes128_encrypt(key: &[u8; 16], block: &[u8; 16]) -> (r: [u8; 16])
    ensures
        r@ == aes128_block(key@, block@),
{
    let cipher = aes::Aes128::new(key.into());
    let mut out = *block;
    cipher.encrypt_block((&mut out).into());
    out
}

/// Eight bytes big-endian.
pub open spec fn be64(v: u64) -> Seq<u8> {
    seq![
        (v / 0x100000000000000) as u8,
        ((v / 0x1000000000000) % 256) as u8,
        ((v / 0x10000000000) % 256) as u8,
        ((v / 0x100000000) % 256) as u8,
        ((v / 0x1000000) % 256) as u8,
        ((v / 0x10000) % 256) as u8,
        ((v / 0x100) % 256) as u8,
        (v % 256) as u8,
    ]
}

/// The plain authentication id: the time in seconds big-endian, four
/// random bytes, and the CRC-32C of those twelve bytes big-endian.
pub open spec fn spec_auth_id(now: u64, random: Seq<u8>) -> Seq<u8> {
    let head = be64(now) + random;
    head + be32(crc32c_of(head))
}

/// The plain authentication id for a time and four random bytes.
pub fn auth_id_plain(now: u64, random: &[u8; 4]) -> (r: [u8; 16])
    ensures
        r@ == spec_auth_id(now, random@),
{
    let time: [u8; 8] = [
        (now / 0x100000000000000) as u8,
        ((now / 0x1000000000000) % 256) as u8,
        ((now / 0x10000000000) % 256) as u8,
        ((now / 0x100000000) % 256) as u8,
        ((now / 0x1000000) % 256) as u8,
        ((now / 0x10000) % 256) as u8,
        ((now / 0x100) % 256) as u8,
        (now % 256) as u8,
    ];
    assert(time@ =~= be64(now));
    let mut head: Vec<u8> = Vec::new();
    crate::target::push_bytes(&mut head, &time);
    crate::target::push_bytes(&mut head, random);
    let sum = crc32c(head.as_slice());
    let mut out = [0u8; 16];
    let mut i: usize = 0;
    while i < 12
        invariant
            i <= 12,
            head@.len() == 12,
            forall|j: int| 0 <= j < i ==> out@[j] == head@[j],
        decreases 12 - i,
    {
        out[i] = head[i];
        i += 1;
    }
    out[12] = (sum / 0x1000000) as u8;
    out[13] = ((sum / 0x10000) % 256) as u8;
    out[14] = ((sum / 256) % 256) as u8;
    out[15] = (sum % 256) as u8;
    assert(out@ =~= spec_auth_id(now, random@));
    out
}

/// Four random bytes.
#[verifier::external_body]
fn random_four() -> (r: [u8; 4]) {
    let mut v = [0u8; 4];
    rand::RngCore::fill_bytes(&mut rand::rng(), &mut v);
    v
}

/// A fresh authentication id, encrypted under `key`: the current time,
/// random bytes and their checksum.
pub fn build_auth_id(key: &[u8; 16]) -> (r: [u8; 16])
    ensures
        exists|now: u64, random: Seq<u8>| random.len() == 4 && r@ == aes128_block(key@, #[trigger] spec_auth_id(now, random)),
{
    let now = now_unix();
    let random = random_four();
    let plain = auth_id_plain(now, &random);
    let r = aes128_encrypt(key, &plain);
    assert(r@ == aes128_block(key@, spec_auth_id(now, random@)));
    r
}

// ---------------------------------------------------------------------------
// Data stream
// ---------------------------------------------------------------------------

/// The first `n` bytes of the SHAKE128 output for some input.
pub uninterp spec fn shake128_out(input: Seq<u8>, n: nat) -> Seq<u8>;

/// `digest::ExtendableOutput::digest_xof` for `sha3::Shake128`: the first
/// `n` bytes of the output stream. Claimed: the result is `shake128_out` of
/// the input and `n`, `n` bytes long; and, as the output is one stream read
/// from its start, a shorter read gives the same bytes as the start of it.
#[verifier::external_body]
fn shake128(input: &[u8], n: usize) -> (r: Vec<u8>)
    ensures
        r@ == shake128_out(input@, n as nat),
        r@.len() == n,
        forall|m: nat| m <= n ==> #[trigger] shake128_out(input@, m) == r@.take(m as int),
{
    let mut out = vec![0u8; n];
    <sha3::Shake128 as digest::ExtendableOutput>::digest_xof(input, &mut out);
    out
}

/// The masks of frame lengths: successive pairs of bytes of the SHAKE128
/// output stream of an IV. `buf` holds the start of the stream, `pos` is
/// where the next mask is read.
pub struct LengthMask {
    pub iv: Vec<u8>,
    pub buf: Vec<u8>,
    pub pos: usize,
}

impl LengthMask {
    /// `buf` is the start of the stream and `pos` lies within it.
    pub open spec fn well_formed(&self) -> bool {
        &&& self.buf@ == shake128_out(self.iv@, self.buf@.len())
        &&& forall|m: nat| m <= self.buf@.len() ==> #[trigger] shake128_out(self.iv@, m) == self.buf@.take(m as int)
        &&& self.pos <= self.buf@.len()
    }

    /// The masks of the stream of `iv`, from its start.
    pub fn new(iv: &[u8]) -> (r: LengthMask)
        ensures
            r.well_formed(),
            r.iv@ == iv@,
            r.pos == 0,
    {
        let mut v: Vec<u8> = Vec::new();
        crate::target::push_bytes(&mut v, iv);
        let buf = shake128(v.as_slice(), 64);
        LengthMask { iv: v, buf, pos: 0 }
    }

    /// The next mask: the next two bytes of the stream, big-endian.
    pub fn next_u16(&mut self) -> (r: u16)
        requires
            old(self).well_formed(),
            old(self).pos < 0x1000_0000,
        ensures
            final(self).well_formed(),
            final(self).iv@ == old(self).iv@,
            final(self).pos == old(self).pos + 2,
            ({
                let s = shake128_out(old(self).iv@, (old(self).pos + 2) as nat);
                r == s[old(self).pos as int] as int * 256 + s[old(self).pos + 1] as int
            }),
    {
        if self.pos + 2 > self.buf.len() {
            let base: usize = if self.buf.len() < 64 {
                64
            } else {
                self.buf.len()
            };
            let longer: usize = if base * 2 < self.pos + 2 {
                self.pos + 2
            } else {
                base * 2
            };
            self.buf = shake128(self.iv.as_slice(), longer);
        }
        let p = self.pos;
        proof {
            assert(shake128_out(self.iv@, (p + 2) as nat) == self.buf@.take(p + 2));
        }
        let r: u16 = (self.buf[p] as u16) * 256 + (self.buf[p + 1] as u16);
        self.pos = p + 2;
        r
    }
}

/// What the next frame of the data stream is, read from its two length
/// bytes (already unmasked) and the bytes that have arrived.
#[derive(Debug, PartialEq, Eq, Structural)]
pub enum FrameStep {
    /// Not all of the frame has arrived.
    Incomplete,
    /// A frame of only a tag: the peer closed the stream.
    End,
    /// A frame with a body of this many bytes.
    Body(usize),
}

/// The step for a frame of `length` bytes when `available` bytes follow the
/// length bytes.
pub fn frame_step(length: usize, available: usize) -> (r: FrameStep)
    ensures
        available < length ==> r == FrameStep::Incomplete,
        available >= length && length == 16 ==> r == FrameStep::End,
        available >= length && length != 16 ==> r == FrameStep::Body(length),
{
    if available < length {
        FrameStep::Incomplete
    } else if length == 16 {
        FrameStep::End
    } else {
        FrameStep::Body(length)
    }
}

/// The length bytes of a frame whose body (with its tag) is `body_len`
/// bytes, xor the mask when there is one.
pub fn frame_length_bytes(body_len: usize, mask: Option<u16>) -> (r: [u8; 2])
    ensures
        ({
            let l = (body_len % 65536) as u16;
            let v = match mask {
                Some(m) => l ^ m,
                None => l,
            };
            r@ == seq![(v / 256) as u8, (v % 256) as u8]
        }),
{
    let l = (body_len % 65536) as u16;
    let v = match mask {
        Some(m) => l ^ m,
        None => l,
    };
    let r = [(v / 256) as u8, (v % 256) as u8];
    assert(r@ =~= seq![(v / 256) as u8, (v % 256) as u8]);
    r
}

/// The keys and check byte with which the response header is read.
pub struct ReadHeaderInfo {
    pub response_header_key: [u8; 16],
    pub response_header_iv: [u8; 16],
    pub response_authentication_v: u8,
}

impl ReadHeaderInfo {
    /// Whether a decrypted response header starts with the check byte that
    /// the request sent.
    pub fn accepts(&self, decrypted: &[u8]) -> (r: bool)
        ensures
            r == (decrypted@.len() > 0 && decrypted@[0] == self.response_authentication_v),
    {
        decrypted.len() > 0 && decrypted[0] == self.response_authentication_v
    }
}


/// The last four bytes of a request header are the FNV-1a checksum of all
/// that comes before them, big-endian.
pub proof fn law_request_header_checksum(random: Seq<u8>, margin: u8, padding: Seq<u8>, method: u8, port: u16, address: Seq<u8>)
    ensures
        ({
            let h = spec_request_header(random, margin, padding, method, port, address);
            h.skip(h.len() - 4) == be32(fnv1a(h.take(h.len() - 4)))
        }),
{
    let body = request_body(random, margin, padding, method, port, address);
    let h = spec_request_header(random, margin, padding, method, port, address);
    assert(h.take(h.len() - 4) =~= body);
    assert(h.skip(h.len() - 4) =~= be32(fnv1a(body)));
}

/// In a VMess request header the address follows the port: type 1 and four
/// octets for IPv4, type 3 and sixteen octets for IPv6, type 2, the length
/// and the bytes for a name; the type byte tells the three forms apart.
pub proof fn law_vmess_address_layout(host: Seq<char>, addr: HostAddress)
    ensures
        ({
            let a = spec_vmess_address(host, addr);
            &&& a[0] == 1 <==> addr is Ipv4
            &&& a[0] == 3 <==> addr is Ipv6
            &&& a[0] == 2 <==> addr is Name
            &&& match addr {
                HostAddress::Ipv4(o) => a.len() == 5 && a.skip(1) == o@,
                HostAddress::Ipv6(o) => a.len() == 17 && a.skip(1) == o@,
                HostAddress::Name => a[1] == name_bytes(host).len() as u8 && a.skip(2) == name_bytes(host),
            }
        }),
{
    let a = spec_vmess_address(host, addr);
    match addr {
        HostAddress::Ipv4(o) => {
            assert(a.skip(1) =~= o@);
        },
        HostAddress::Ipv6(o) => {
            assert(a.skip(1) =~= o@);
        },
        HostAddress::Name => {
            assert(a.skip(2) =~= name_bytes(host));
        },
    }
}
/// The plain VMess request header is version 1, the 33 random bytes, option
/// 5, the padding length over the security number, a reserved 0, command 1
/// (TCP), the port big-endian, the address and the padding, then four
/// checksum bytes.
pub proof fn law_request_header_fields(random: Seq<u8>, margin: u8, padding: Seq<u8>, method: u8, port: u16, address: Seq<u8>)
    requires
        random.len() == 33,
        margin < 16,
        method < 16,
        padding.len() == margin,
    ensures
        ({
            let h = spec_request_header(random, margin, padding, method, port, address);
            &&& h.len() == 40 + address.len() + margin + 4
            &&& h[0] == 1
            &&& h.subrange(1, 34) == random
            &&& h[34] == 5
            &&& h[35] / 16 == margin && h[35] % 16 == method
            &&& h[36] == 0
            &&& h[37] == 1
            &&& h[38] as int * 256 + h[39] as int == port as int
            &&& h.subrange(40, 40 + address.len() as int) == address
            &&& h.subrange(40 + address.len() as int, 40 + address.len() + margin as int) == padding
        }),
{
    let h = spec_request_header(random, margin, padding, method, port, address);
    assert(h.subrange(1, 34) =~= random);
    assert(h.subrange(40, 40 + address.len() as int) =~= address);
    assert(h.subrange(40 + address.len() as int, 40 + address.len() + margin as int) =~= padding);
    assert(((margin * 16 + method) as u8) as int == margin * 16 + method);
}
} // verus!
