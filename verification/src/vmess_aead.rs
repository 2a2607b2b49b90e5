//! The sealed VMess request: the instruction key of a user's UUID, the key
//! derivation function (nested HMAC-SHA-256 keyed by a path of labels), the
//! keys it gives for the authentication id and for the header, and the
//! bytes written to the server: authentication id, sealed length, nonce and
//! sealed header.
use vstd::prelude::*;

use crate::dns::be16_bytes;
use crate::md5::{md5, md5_of};
use crate::vless::{parse_uuid, uuid_parsed};
use crate::target::{host_bytes, name_bytes, push_bytes, HostAddress, Target};
use crate::vmess::{
    aes128_block, build_auth_id, cipher_method, random_bytes, spec_auth_id, spec_request_header, spec_vmess_address,
    ReadHeaderInfo, VMessProxy, VmessError,
};

verus! {

// ---------------------------------------------------------------------------
// Outside primitives
// ---------------------------------------------------------------------------

/// The SHA-256 digest of some bytes.
pub uninterp spec fn sha256_of(m: Seq<u8>) -> Seq<u8>;

/// `aws_lc_rs::digest::digest` with `SHA256`. Claimed: the result is
/// `sha256_of` the bytes, and it is 32 bytes long.
#[verifier::external_body]
fn sha256(m: &[u8]) -> (r: Vec<u8>)
    ensures
        r@ == sha256_of(m@),
        r@.len() == 32,
{
    aws_lc_rs::digest::digest(&aws_lc_rs::digest::SHA256, m).as_ref().to_vec()
}

/// The AES-128-GCM sealing of `plain` under a key, a nonce and additional
/// data: the ciphertext followed by the tag.
pub uninterp spec fn aes128_gcm_sealed(key: Seq<u8>, nonce: Seq<u8>, aad: Seq<u8>, plain: Seq<u8>) -> Seq<u8>;

/// `aws_lc_rs::aead::LessSafeKey::seal_in_place_append_tag` with
/// `AES_128_GCM`. Claimed, where it succeeds: the result is
/// `aes128_gcm_sealed` of its arguments, 16 bytes of tag longer than the
/// plain text. Success is not claimed.
#[verifier::external_body]
fn aes128_gcm_seal(key: &[u8; 16], nonce: &[u8; 12], aad: &[u8], plain: &[u8]) -> (r: Option<Vec<u8>>)
    ensures
        r matches Some(s) ==> s@ == aes128_gcm_sealed(key@, nonce@, aad@, plain@) && s@.len() == plain@.len() + 16,
{
    let unbound = aws_lc_rs::aead::UnboundKey::new(&aws_lc_rs::aead::AES_128_GCM, key).ok()?;
    let sealing = aws_lc_rs::aead::LessSafeKey::new(unbound);
    let mut buf = plain.to_vec();
    let nonce = aws_lc_rs::aead::Nonce::assume_unique_for_key(*nonce);
    sealing.seal_in_place_append_tag(nonce, aws_lc_rs::aead::Aad::from(aad), &mut buf).ok()?;
    Some(buf)
}

// ---------------------------------------------------------------------------
// Key derivation
// ---------------------------------------------------------------------------

/// A key of at most 64 bytes filled up with zero bytes to 64.
pub open spec fn pad64(k: Seq<u8>) -> Seq<u8> {
    if k.len() <= 64 {
        k + Seq::new((64 - k.len()) as nat, |i: int| 0u8)
    } else {
        k.take(64)
    }
}

/// Each of 64 bytes xor-ed with `c`.
pub open spec fn xor64(k: Seq<u8>, c: u8) -> Seq<u8> {
    Seq::new(64, |i: int| k[i] ^ c)
}

/// The hash of the KDF chain with `keys` (innermost first): SHA-256 for no
/// key; otherwise HMAC keyed by the last key over the hash of the chain
/// without it (a key longer than 64 bytes is first hashed by that chain).
pub open spec fn chain_hash(keys: Seq<Seq<u8>>, m: Seq<u8>) -> Seq<u8>
    decreases keys.len(),
{
    if keys.len() == 0 {
        sha256_of(m)
    } else {
        let parent = keys.drop_last();
        let k0 = keys.last();
        let k = if k0.len() > 64 {
            chain_hash(parent, k0)
        } else {
            k0
        };
        let kb = pad64(k);
        chain_hash(parent, xor64(kb, 0x5c) + chain_hash(parent, xor64(kb, 0x36) + m))
    }
}

/// The VMess key derivation of `key` along `path`: the chain that starts
/// with the salt `VMess AEAD KDF`, then the labels of the path.
pub open spec fn vmess_kdf(key: Seq<u8>, path: Seq<Seq<u8>>) -> Seq<u8> {
    chain_hash(seq![name_bytes("VMess AEAD KDF"@)] + path, key)
}

/// A copy of some bytes.
fn copy_bytes(b: &[u8]) -> (r: Vec<u8>)
    ensures
        r@ == b@,
{
    let mut r: Vec<u8> = Vec::new();
    push_bytes(&mut r, b);
    r
}

/// `pad64` of a key, xor-ed with `c`.
fn padded_xor(k: &[u8], c: u8) -> (r: Vec<u8>)
    requires
        k@.len() <= 64,
    ensures
        r@ == xor64(pad64(k@), c),
{
    let ghost p = pad64(k@);
    let mut r: Vec<u8> = Vec::new();
    let mut i: usize = 0;
    while i < 64
        invariant
            i <= 64,
            k@.len() <= 64,
            p == pad64(k@),
            p.len() == 64,
            r@.len() == i,
            forall|j: int| 0 <= j < i ==> r@[j] == #[trigger] p[j] ^ c,
        decreases 64 - i,
    {
        let b: u8 = if i < k.len() {
            k[i]
        } else {
            0
        };
        assert(b == p[i as int]);
        r.push(b ^ c);
        i += 1;
    }
    assert(r@ =~= xor64(p, c));
    r
}

/// The hash of the chain made of the first `n` keys.
fn chain_hash_of(keys: &Vec<Vec<u8>>, n: usize, m: &[u8]) -> (r: Vec<u8>)
    requires
        n <= keys@.len(),
    ensures
        r@ == chain_hash(crate::vless::byte_views(keys@).take(n as int), m@),
        r@.len() == 32,
    decreases n,
{
    let ghost all = crate::vless::byte_views(keys@);
    if n == 0 {
        let r = sha256(m);
        assert(all.take(0) =~= Seq::<Seq<u8>>::empty());
        return r;
    }
    let ghost ks = all.take(n as int);
    proof {
        assert(ks.drop_last() =~= all.take(n - 1));
        assert(ks.last() == keys@[n - 1]@);
    }
    let k0 = &keys[n - 1];
    let k: Vec<u8> = if k0.len() > 64 {
        chain_hash_of(keys, n - 1, k0.as_slice())
    } else {
        copy_bytes(k0.as_slice())
    };
    let mut inner = padded_xor(k.as_slice(), 0x36);
    push_bytes(&mut inner, m);
    let ih = chain_hash_of(keys, n - 1, inner.as_slice());
    let mut outer = padded_xor(k.as_slice(), 0x5c);
    push_bytes(&mut outer, ih.as_slice());
    chain_hash_of(keys, n - 1, outer.as_slice())
}

/// The VMess key derivation of `key` along `path`.
pub fn kdf(key: &[u8], path: &Vec<Vec<u8>>) -> (r: Vec<u8>)
    ensures
        r@ == vmess_kdf(key@, crate::vless::byte_views(path@)),
        r@.len() == 32,
{
    let mut keys: Vec<Vec<u8>> = Vec::new();
    keys.push(host_bytes("VMess AEAD KDF"));
    let mut i: usize = 0;
    while i < path.len()
        invariant
            i <= path@.len(),
            keys@.len() == i + 1,
            crate::vless::byte_views(keys@) =~= seq![name_bytes("VMess AEAD KDF"@)] + crate::vless::byte_views(path@).take(
                i as int,
            ),
        decreases path.len() - i,
    {
        let ghost before = keys@;
        keys.push(copy_bytes(path[i].as_slice()));
        proof {
            assert(crate::vless::byte_views(keys@) =~= crate::vless::byte_views(before).push(path@[i as int]@));
            assert(crate::vless::byte_views(path@).take(i + 1) =~= crate::vless::byte_views(path@).take(i as int).push(
                path@[i as int]@,
            ));
        }
        i += 1;
    }
    let n = keys.len();
    assert(crate::vless::byte_views(path@).take(path@.len() as int) =~= crate::vless::byte_views(path@));
    assert(crate::vless::byte_views(keys@).take(n as int) =~= crate::vless::byte_views(keys@));
    chain_hash_of(&keys, n, key)
}

/// The first 16 bytes of some bytes, as an array.
fn first16(b: &[u8]) -> (r: [u8; 16])
    requires
        b@.len() >= 16,
    ensures
        r@ == b@.take(16),
{
    let mut r = [0u8; 16];
    let mut i: usize = 0;
    while i < 16
        invariant
            i <= 16,
            b@.len() >= 16,
            forall|j: int| 0 <= j < i ==> r@[j] == b@[j],
        decreases 16 - i,
    {
        r[i] = b[i];
        i += 1;
    }
    assert(r@ =~= b@.take(16));
    r
}

/// The first 12 bytes of some bytes, as an array.
fn first12(b: &[u8]) -> (r: [u8; 12])
    requires
        b@.len() >= 12,
    ensures
        r@ == b@.take(12),
{
    let mut r = [0u8; 12];
    let mut i: usize = 0;
    while i < 12
        invariant
            i <= 12,
            b@.len() >= 12,
            forall|j: int| 0 <= j < i ==> r@[j] == b@[j],
        decreases 12 - i,
    {
        r[i] = b[i];
        i += 1;
    }
    assert(r@ =~= b@.take(12));
    r
}

// ---------------------------------------------------------------------------
// Keys of a request
// ---------------------------------------------------------------------------

/// The key under which the authentication id is encrypted: the first 16
/// bytes of the derivation of the instruction key along
/// `AES Auth ID Encryption`.
pub open spec fn spec_auth_id_key(ik: Seq<u8>) -> Seq<u8> {
    vmess_kdf(ik, seq![name_bytes("AES Auth ID Encryption"@)]).take(16)
}

/// The key of the authentication id for an instruction key.
pub fn auth_id_key(ik: &[u8; 16]) -> (r: [u8; 16])
    ensures
        r@ == spec_auth_id_key(ik@),
{
    let mut path: Vec<Vec<u8>> = Vec::new();
    path.push(host_bytes("AES Auth ID Encryption"));
    assert(crate::vless::byte_views(path@) =~= seq![name_bytes("AES Auth ID Encryption"@)]);
    let d = kdf(ik, &path);
    first16(d.as_slice())
}

/// The derivation of the instruction key along a label, the
/// authentication id and the nonce.
pub open spec fn header_kdf(ik: Seq<u8>, label: Seq<char>, auth_id: Seq<u8>, nonce: Seq<u8>) -> Seq<u8> {
    vmess_kdf(ik, seq![name_bytes(label), auth_id, nonce])
}

/// The keys and nonces that seal the length and the header of a request.
pub struct HeaderKeys {
    pub length_key: [u8; 16],
    pub length_nonce: [u8; 12],
    pub header_key: [u8; 16],
    pub header_nonce: [u8; 12],
}

/// `header_kdf` along one label.
fn derive_for(ik: &[u8; 16], label: &str, auth_id: &[u8; 16], nonce: &[u8; 8]) -> (r: Vec<u8>)
    ensures
        r@ == header_kdf(ik@, label@, auth_id@, nonce@),
        r@.len() == 32,
{
    let mut path: Vec<Vec<u8>> = Vec::new();
    path.push(host_bytes(label));
    path.push(copy_bytes(auth_id));
    path.push(copy_bytes(nonce));
    assert(crate::vless::byte_views(path@) =~= seq![name_bytes(label@), auth_id@, nonce@]);
    kdf(ik, &path)
}

/// The header keys of a request, derived from the instruction key, the
/// authentication id and the nonce.
pub fn header_keys(ik: &[u8; 16], auth_id: &[u8; 16], nonce: &[u8; 8]) -> (r: HeaderKeys)
    ensures
        r.length_key@ == header_kdf(ik@, "VMess Header AEAD Key_Length"@, auth_id@, nonce@).take(16),
        r.length_nonce@ == header_kdf(ik@, "VMess Header AEAD Nonce_Length"@, auth_id@, nonce@).take(12),
        r.header_key@ == header_kdf(ik@, "VMess Header AEAD Key"@, auth_id@, nonce@).take(16),
        r.header_nonce@ == header_kdf(ik@, "VMess Header AEAD Nonce"@, auth_id@, nonce@).take(12),
{
    let a = derive_for(ik, "VMess Header AEAD Key_Length", auth_id, nonce);
    let b = derive_for(ik, "VMess Header AEAD Nonce_Length", auth_id, nonce);
    let c = derive_for(ik, "VMess Header AEAD Key", auth_id, nonce);
    let d = derive_for(ik, "VMess Header AEAD Nonce", auth_id, nonce);
    HeaderKeys {
        length_key: first16(a.as_slice()),
        length_nonce: first12(b.as_slice()),
        header_key: first16(c.as_slice()),
        header_nonce: first12(d.as_slice()),
    }
}

// ---------------------------------------------------------------------------
// The request as written
// ---------------------------------------------------------------------------

/// The bytes of a request as written: the authentication id (16 bytes),
/// the sealed length (18), the nonce (8) and the sealed header.
pub open spec fn request_layout(auth_id: Seq<u8>, sealed_length: Seq<u8>, nonce: Seq<u8>, sealed_header: Seq<u8>) -> Seq<u8> {
    auth_id + sealed_length + nonce + sealed_header
}

/// The four parts of a request, one after the other.
pub fn compose_request(auth_id: &[u8; 16], sealed_length: &[u8], nonce: &[u8; 8], sealed_header: &[u8]) -> (r: Vec<u8>)
    ensures
        r@ == request_layout(auth_id@, sealed_length@, nonce@, sealed_header@),
        r@.len() == 24 + sealed_length@.len() + sealed_header@.len(),
{
    let mut r: Vec<u8> = Vec::new();
    push_bytes(&mut r, auth_id);
    push_bytes(&mut r, sealed_length);
    push_bytes(&mut r, nonce);
    push_bytes(&mut r, sealed_header);
    r
}

/// The sealed request for an instruction key, an authentication id, a
/// nonce and a plain header: the length of the header (two bytes
/// big-endian) and the header itself are each sealed with AES-128-GCM under
/// their derived key and nonce, with the authentication id as additional
/// data.
pub open spec fn spec_sealed_request(ik: Seq<u8>, auth_id: Seq<u8>, nonce: Seq<u8>, header: Seq<u8>) -> Seq<u8> {
    let length_key = header_kdf(ik, "VMess Header AEAD Key_Length"@, auth_id, nonce).take(16);
    let length_nonce = header_kdf(ik, "VMess Header AEAD Nonce_Length"@, auth_id, nonce).take(12);
    let header_key = header_kdf(ik, "VMess Header AEAD Key"@, auth_id, nonce).take(16);
    let header_nonce = header_kdf(ik, "VMess Header AEAD Nonce"@, auth_id, nonce).take(12);
    request_layout(
        auth_id,
        aes128_gcm_sealed(length_key, length_nonce, auth_id, be16_bytes(header.len() as u16)),
        nonce,
        aes128_gcm_sealed(header_key, header_nonce, auth_id, header),
    )
}

/// The request as written, from the instruction key, the authentication
/// id, the nonce and the plain header; `SealFailed` where the cipher
/// refused to seal.
pub fn seal_request(ik: &[u8; 16], auth_id: &[u8; 16], nonce: &[u8; 8], header: &[u8]) -> (r: Result<Vec<u8>, VmessError>)
    requires
        header@.len() <= u16::MAX,
    ensures
        r matches Ok(b) ==> b@ == spec_sealed_request(ik@, auth_id@, nonce@, header@) && b@.len() == 42 + header@.len()
            + 16,
        r matches Err(e) ==> e == VmessError::SealFailed,
{
    let keys = header_keys(ik, auth_id, nonce);
    let n: u16 = header.len() as u16;
    let len_bytes: [u8; 2] = [(n / 256) as u8, (n % 256) as u8];
    assert(len_bytes@ =~= be16_bytes(header@.len() as u16));
    let sealed_length = match aes128_gcm_seal(&keys.length_key, &keys.length_nonce, auth_id, &len_bytes) {
        Some(s) => s,
        None => {
            return Err(VmessError::SealFailed);
        },
    };
    let sealed_header = match aes128_gcm_seal(&keys.header_key, &keys.header_nonce, auth_id, header) {
        Some(s) => s,
        None => {
            return Err(VmessError::SealFailed);
        },
    };
    Ok(compose_request(auth_id, sealed_length.as_slice(), nonce, sealed_header.as_slice()))
}

/// `header` is a plain request header of `proxy` for `target`, whose host
/// reads as `addr`: some 33 random bytes, a padding length under 16 and
/// that much padding.
pub open spec fn is_request_header(proxy: VMessProxy, target: Target, addr: HostAddress, header: Seq<u8>) -> bool {
    exists|random: Seq<u8>, margin: u8, padding: Seq<u8>|
        random.len() == 33 && margin < 16 && padding.len() == margin && #[trigger] spec_request_header(
            random,
            margin,
            padding,
            cipher_method(proxy.cipher),
            target.port,
            spec_vmess_address(target.host@, addr),
        ) == header
}

/// Eight bytes of a vector of eight, as an array.
fn array8(v: &Vec<u8>) -> (r: [u8; 8])
    requires
        v@.len() == 8,
    ensures
        r@ == v@,
{
    let r: [u8; 8] = [v[0], v[1], v[2], v[3], v[4], v[5], v[6], v[7]];
    assert(r@ =~= v@);
    r
}

/// `b` is a request as written by `proxy` for `target` (whose host reads as
/// `addr`) under the instruction key `ik`: some plain header of it, an
/// authentication id of some time and four random bytes encrypted under the
/// key derived from `ik`, and some eight-byte nonce, sealed.
pub open spec fn is_written_request(proxy: VMessProxy, target: Target, addr: HostAddress, ik: Seq<u8>, b: Seq<u8>) -> bool {
    exists|header: Seq<u8>, now: u64, random: Seq<u8>, nonce: Seq<u8>|
        is_request_header(proxy, target, addr, header) && random.len() == 4 && nonce.len() == 8 && b
            == #[trigger] spec_sealed_request(ik, aes128_block(spec_auth_id_key(ik), spec_auth_id(now, random)), nonce, header)
}

impl VMessProxy {
    /// The request as written for `target`, whose host reads as `addr`,
    /// under the instruction key `ik`: a fresh plain header, an
    /// authentication id of the current time encrypted under the key derived
    /// from `ik`, and a random nonce, sealed as `seal_request` does.
    pub fn request_bytes(&self, ik: &[u8; 16], target: &Target, addr: &HostAddress) -> (r: Result<Vec<u8>, VmessError>)
        ensures
            addr is Name && name_bytes(target.host@).len() > 255 ==> r == Err::<Vec<u8>, VmessError>(VmessError::HostnameTooLong),
            r matches Err(e) ==> e == VmessError::SealFailed || (e == VmessError::HostnameTooLong && addr is Name
                && name_bytes(target.host@).len() > 255),
            r matches Ok(b) ==> is_written_request(*self, *target, *addr, ik@, b@),
    {
        let header = match self.new_request_header(target, addr) {
            Err(e) => {
                return Err(e);
            },
            Ok(h) => h,
        };
        proof {
            let (random, margin, padding) = choose|random: Seq<u8>, margin: u8, padding: Seq<u8>|
                random.len() == 33 && margin < 16 && padding.len() == margin && #[trigger] spec_request_header(
                    random,
                    margin,
                    padding,
                    cipher_method(self.cipher),
                    target.port,
                    spec_vmess_address(target.host@, *addr),
                ) == header@;
            assert(header@.len() <= 316);
        }
        let key = auth_id_key(ik);
        let auth_id = build_auth_id(&key);
        let nonce_bytes = random_bytes(8);
        let nonce = array8(&nonce_bytes);
        let r = seal_request(ik, &auth_id, &nonce, header.as_slice());
        proof {
            let (now, random) = choose|now: u64, random: Seq<u8>|
                random.len() == 4 && auth_id@ == aes128_block(key@, #[trigger] spec_auth_id(now, random));
            assert(is_request_header(*self, *target, *addr, header@));
        }
        r
    }
}

/// The salt that follows the UUID in the input of the instruction key.
pub open spec fn uuid_salt() -> Seq<u8> {
    seq![
        99u8, 52, 56, 54, 49, 57, 102, 101, 45, 56, 102, 48,
        50, 45, 52, 57, 101, 48, 45, 98, 57, 101, 57, 45,
        101, 100, 102, 55, 54, 51, 101, 49, 55, 101, 50, 49,
    ]
}

/// The instruction key of a user: the MD5 digest of the UUID's sixteen
/// bytes followed by the salt.
pub open spec fn spec_instruction_key(uuid: Seq<u8>) -> Seq<u8> {
    md5_of(uuid + uuid_salt())
}

/// The instruction key for the sixteen bytes of a UUID.
pub fn instruction_key(uuid: &[u8; 16]) -> (r: [u8; 16])
    ensures
        r@ == spec_instruction_key(uuid@),
{
    let salt: [u8; 36] = [
        99, 52, 56, 54, 49, 57, 102, 101, 45, 56, 102, 48,
        50, 45, 52, 57, 101, 48, 45, 98, 57, 101, 57, 45,
        101, 100, 102, 55, 54, 51, 101, 49, 55, 101, 50, 49,
    ];
    assert(salt@ =~= uuid_salt());
    let mut value: Vec<u8> = Vec::new();
    push_bytes(&mut value, uuid);
    push_bytes(&mut value, &salt);
    md5(value.as_slice())
}

impl VMessProxy {
    /// The request as written for `target`, whose host reads as `addr`:
    /// refused when the configured UUID does not parse; otherwise sealed
    /// under the instruction key of its bytes, as `request_bytes` does.
    pub fn request(&self, target: &Target, addr: &HostAddress) -> (r: Result<Vec<u8>, VmessError>)
        ensures
            uuid_parsed(self.uuid@) is None ==> r == Err::<Vec<u8>, VmessError>(VmessError::InvalidUuid),
            uuid_parsed(self.uuid@) matches Some(u) ==> {
                &&& addr is Name && name_bytes(target.host@).len() > 255 ==> r == Err::<Vec<u8>, VmessError>(
                    VmessError::HostnameTooLong,
                )
                &&& r matches Err(e) ==> e == VmessError::SealFailed || (e == VmessError::HostnameTooLong && addr is Name
                    && name_bytes(target.host@).len() > 255)
                &&& r matches Ok(b) ==> is_written_request(*self, *target, *addr, spec_instruction_key(u), b@)
            },
    {
        let uuid = match parse_uuid(self.uuid.as_str()) {
            None => {
                return Err(VmessError::InvalidUuid);
            },
            Some(u) => u,
        };
        let ik = instruction_key(&uuid);
        self.request_bytes(&ik, target, addr)
    }
}

/// The keys with which the response of a request whose plain header is
/// `header` is read: the first 16 bytes of the SHA-256 of the data IV
/// (header bytes 1 to 16) and of the data key (bytes 17 to 32), and the
/// check byte (byte 33).
pub fn response_header_info(header: &[u8]) -> (r: ReadHeaderInfo)
    requires
        header@.len() >= 34,
    ensures
        r.response_header_iv@ == sha256_of(header@.subrange(1, 17)).take(16),
        r.response_header_key@ == sha256_of(header@.subrange(17, 33)).take(16),
        r.response_authentication_v == header@[33],
{
    let mut iv: Vec<u8> = Vec::new();
    let mut key: Vec<u8> = Vec::new();
    let mut i: usize = 1;
    while i < 17
        invariant
            1 <= i <= 17,
            header@.len() >= 34,
            iv@ == header@.subrange(1, i as int),
        decreases 17 - i,
    {
        iv.push(header[i]);
        assert(iv@ =~= header@.subrange(1, i + 1));
        i += 1;
    }
    while i < 33
        invariant
            17 <= i <= 33,
            header@.len() >= 34,
            key@ == header@.subrange(17, i as int),
        decreases 33 - i,
    {
        key.push(header[i]);
        assert(key@ =~= header@.subrange(17, i + 1));
        i += 1;
    }
    let hiv = sha256(iv.as_slice());
    let hkey = sha256(key.as_slice());
    ReadHeaderInfo {
        response_header_key: first16(hkey.as_slice()),
        response_header_iv: first16(hiv.as_slice()),
        response_authentication_v: header[33],
    }
}

} // verus!
