//! MD5, as the VMess instruction key is derived with it: the digest of a
//! message, padded and folded block by block through the 64 rounds.
use vstd::prelude::*;

verus! {

/// The additive constants of the 64 rounds.
pub open spec fn md5_k() -> Seq<u32> {
    seq![
        0xd76aa478u32, 0xe8c7b756, 0x242070db, 0xc1bdceee,
        0xf57c0faf, 0x4787c62a, 0xa8304613, 0xfd469501,
        0x698098d8, 0x8b44f7af, 0xffff5bb1, 0x895cd7be,
        0x6b901122, 0xfd987193, 0xa679438e, 0x49b40821,
        0xf61e2562, 0xc040b340, 0x265e5a51, 0xe9b6c7aa,
        0xd62f105d, 0x02441453, 0xd8a1e681, 0xe7d3fbc8,
        0x21e1cde6, 0xc33707d6, 0xf4d50d87, 0x455a14ed,
        0xa9e3e905, 0xfcefa3f8, 0x676f02d9, 0x8d2a4c8a,
        0xfffa3942, 0x8771f681, 0x6d9d6122, 0xfde5380c,
        0xa4beea44, 0x4bdecfa9, 0xf6bb4b60, 0xbebfbc70,
        0x289b7ec6, 0xeaa127fa, 0xd4ef3085, 0x04881d05,
        0xd9d4d039, 0xe6db99e5, 0x1fa27cf8, 0xc4ac5665,
        0xf4292244, 0x432aff97, 0xab9423a7, 0xfc93a039,
        0x655b59c3, 0x8f0ccc92, 0xffeff47d, 0x85845dd1,
        0x6fa87e4f, 0xfe2ce6e0, 0xa3014314, 0x4e0811a1,
        0xf7537e82, 0xbd3af235, 0x2ad7d2bb, 0xeb86d391,
    ]
}

/// The rotation of each of the 64 rounds.
pub open spec fn md5_s() -> Seq<u32> {
    seq![
        7u32, 12, 17, 22, 7, 12, 17, 22, 7, 12, 17, 22, 7, 12, 17, 22,
        5, 9, 14, 20, 5, 9, 14, 20, 5, 9, 14, 20, 5, 9, 14, 20,
        4, 11, 16, 23, 4, 11, 16, 23, 4, 11, 16, 23, 4, 11, 16, 23,
        6, 10, 15, 21, 6, 10, 15, 21, 6, 10, 15, 21, 6, 10, 15, 21,
    ]
}

/// The message word that round `i` reads.
pub open spec fn md5_g(i: int) -> int {
    if i < 16 {
        i
    } else if i < 32 {
        (5 * i + 1) % 16
    } else if i < 48 {
        (3 * i + 5) % 16
    } else {
        (7 * i) % 16
    }
}

/// The mixing function of round `i`.
pub open spec fn md5_f(i: int, b: u32, c: u32, d: u32) -> u32 {
    if i < 16 {
        (b & c) | (!b & d)
    } else if i < 32 {
        (d & b) | (!d & c)
    } else if i < 48 {
        b ^ c ^ d
    } else {
        c ^ (b | !d)
    }
}

/// `x` rotated left by `s` bits.
pub open spec fn rotl(x: u32, s: u32) -> u32 {
    (x << s) | (x >> (32 - s) as u32)
}

/// One round on the state `(a, b, c, d)` with the message words `m`.
pub open spec fn md5_step(st: (u32, u32, u32, u32), m: Seq<u32>, i: int) -> (u32, u32, u32, u32) {
    let t = md5_f(i, st.1, st.2, st.3).wrapping_add(st.0).wrapping_add(md5_k()[i]).wrapping_add(m[md5_g(i)]);
    (st.3, st.1.wrapping_add(rotl(t, md5_s()[i])), st.1, st.2)
}

/// Rounds `i` to 63.
pub open spec fn md5_rounds(st: (u32, u32, u32, u32), m: Seq<u32>, i: int) -> (u32, u32, u32, u32)
    decreases 64 - i,
{
    if i < 0 || i >= 64 {
        st
    } else {
        md5_rounds(md5_step(st, m, i), m, i + 1)
    }
}

/// The little-endian word at byte `j`.
pub open spec fn le32_at(b: Seq<u8>, j: int) -> u32 {
    (b[j] as int + b[j + 1] as int * 256 + b[j + 2] as int * 65536 + b[j + 3] as int * 16777216) as u32
}

/// The sixteen words of a block.
pub open spec fn md5_words(block: Seq<u8>) -> Seq<u32> {
    Seq::new(16, |j: int| le32_at(block, 4 * j))
}

/// The state after one block.
pub open spec fn md5_block(h: (u32, u32, u32, u32), block: Seq<u8>) -> (u32, u32, u32, u32) {
    let r = md5_rounds(h, md5_words(block), 0);
    (h.0.wrapping_add(r.0), h.1.wrapping_add(r.1), h.2.wrapping_add(r.2), h.3.wrapping_add(r.3))
}

/// The state after the whole blocks of `p` from byte `off`.
pub open spec fn md5_fold(h: (u32, u32, u32, u32), p: Seq<u8>, off: int) -> (u32, u32, u32, u32)
    decreases p.len() - off,
{
    if off < 0 || off + 64 > p.len() {
        h
    } else {
        md5_fold(md5_block(h, p.subrange(off, off + 64)), p, off + 64)
    }
}

/// Eight bytes little-endian.
pub open spec fn le64_bytes(v: u64) -> Seq<u8> {
    Seq::new(8, |i: int| ((v as int / pow256(i)) % 256) as u8)
}

/// 256 to the power `i`, for `i` from 0 to 7.
pub open spec fn pow256(i: int) -> int {
    if i <= 0 {
        1
    } else if i == 1 {
        0x100
    } else if i == 2 {
        0x10000
    } else if i == 3 {
        0x1000000
    } else if i == 4 {
        0x100000000
    } else if i == 5 {
        0x10000000000
    } else if i == 6 {
        0x1000000000000
    } else {
        0x100000000000000
    }
}

/// The padded message: a 0x80 byte, zeros up to 56 modulo 64, and the
/// length in bits as eight bytes little-endian.
pub open spec fn md5_pad(msg: Seq<u8>) -> Seq<u8> {
    let z = (119 - msg.len() % 64) % 64;
    msg + seq![0x80u8] + Seq::new(z as nat, |i: int| 0u8) + le64_bytes((msg.len() * 8) as u64)
}

/// Four bytes little-endian.
pub open spec fn le32_bytes(x: u32) -> Seq<u8> {
    seq![(x % 256) as u8, ((x / 256) % 256) as u8, ((x / 65536) % 256) as u8, (x / 16777216) as u8]
}

/// The initial state.
pub open spec fn md5_init() -> (u32, u32, u32, u32) {
    (0x67452301u32, 0xefcdab89u32, 0x98badcfeu32, 0x10325476u32)
}

/// The MD5 digest of a message.
pub open spec fn md5_of(msg: Seq<u8>) -> Seq<u8> {
    let h = md5_fold(md5_init(), md5_pad(msg), 0);
    le32_bytes(h.0) + le32_bytes(h.1) + le32_bytes(h.2) + le32_bytes(h.3)
}

/// The mixing function of round `i`.
fn mix(i: usize, b: u32, c: u32, d: u32) -> (r: u32)
    ensures
        r == md5_f(i as int, b, c, d),
{
    if i < 16 {
        (b & c) | (!b & d)
    } else if i < 32 {
        (d & b) | (!d & c)
    } else if i < 48 {
        b ^ c ^ d
    } else {
        c ^ (b | !d)
    }
}

/// The message word of round `i`.
fn word_index(i: usize) -> (r: usize)
    requires
        i < 64,
    ensures
        r == md5_g(i as int),
        r < 16,
{
    if i < 16 {
        i
    } else if i < 32 {
        (5 * i + 1) % 16
    } else if i < 48 {
        (3 * i + 5) % 16
    } else {
        (7 * i) % 16
    }
}

/// The state after one 64-byte block at `off`.
fn compress(h: (u32, u32, u32, u32), p: &Vec<u8>, off: usize) -> (r: (u32, u32, u32, u32))
    requires
        off + 64 <= p@.len(),
    ensures
        r == md5_block(h, p@.subrange(off as int, off + 64)),
{
    let ghost block = p@.subrange(off as int, off + 64);
    let k: [u32; 64] = [
        0xd76aa478, 0xe8c7b756, 0x242070db, 0xc1bdceee,
        0xf57c0faf, 0x4787c62a, 0xa8304613, 0xfd469501,
        0x698098d8, 0x8b44f7af, 0xffff5bb1, 0x895cd7be,
        0x6b901122, 0xfd987193, 0xa679438e, 0x49b40821,
        0xf61e2562, 0xc040b340, 0x265e5a51, 0xe9b6c7aa,
        0xd62f105d, 0x02441453, 0xd8a1e681, 0xe7d3fbc8,
        0x21e1cde6, 0xc33707d6, 0xf4d50d87, 0x455a14ed,
        0xa9e3e905, 0xfcefa3f8, 0x676f02d9, 0x8d2a4c8a,
        0xfffa3942, 0x8771f681, 0x6d9d6122, 0xfde5380c,
        0xa4beea44, 0x4bdecfa9, 0xf6bb4b60, 0xbebfbc70,
        0x289b7ec6, 0xeaa127fa, 0xd4ef3085, 0x04881d05,
        0xd9d4d039, 0xe6db99e5, 0x1fa27cf8, 0xc4ac5665,
        0xf4292244, 0x432aff97, 0xab9423a7, 0xfc93a039,
        0x655b59c3, 0x8f0ccc92, 0xffeff47d, 0x85845dd1,
        0x6fa87e4f, 0xfe2ce6e0, 0xa3014314, 0x4e0811a1,
        0xf7537e82, 0xbd3af235, 0x2ad7d2bb, 0xeb86d391,
    ];
    let s: [u32; 64] = [
        7, 12, 17, 22, 7, 12, 17, 22, 7, 12, 17, 22, 7, 12, 17, 22,
        5, 9, 14, 20, 5, 9, 14, 20, 5, 9, 14, 20, 5, 9, 14, 20,
        4, 11, 16, 23, 4, 11, 16, 23, 4, 11, 16, 23, 4, 11, 16, 23,
        6, 10, 15, 21, 6, 10, 15, 21, 6, 10, 15, 21, 6, 10, 15, 21,
    ];
    assert(k@ =~= md5_k());
    assert(s@ =~= md5_s());
    let mut m: Vec<u32> = Vec::new();
    let mut j: usize = 0;
    while j < 16
        invariant
            j <= 16,
            off + 64 <= p@.len(),
            off + 64 <= p.len(),
            block == p@.subrange(off as int, off + 64),
            m@.len() == j,
            forall|q: int| 0 <= q < j ==> m@[q] == #[trigger] md5_words(block)[q],
        decreases 16 - j,
    {
        let base = off + 4 * j;
        let w: u32 = p[base] as u32 + (p[base + 1] as u32) * 256 + (p[base + 2] as u32) * 65536 + (p[base + 3] as u32)
            * 16777216;
        assert(w == le32_at(block, 4 * j as int));
        m.push(w);
        j += 1;
    }
    assert(m@ =~= md5_words(block));
    let mut st = h;
    let mut i: usize = 0;
    while i < 64
        invariant
            i <= 64,
            m@ == md5_words(block),
            m@.len() == 16,
            k@ == md5_k(),
            s@ == md5_s(),
            md5_rounds(st, m@, i as int) == md5_rounds(h, m@, 0),
        decreases 64 - i,
    {
        let f = mix(i, st.1, st.2, st.3);
        let g = word_index(i);
        let t = f.wrapping_add(st.0).wrapping_add(k[i]).wrapping_add(m[g]);
        let sh = s[i];
        assert(0 < sh < 32) by {
            assert(md5_s()[i as int] > 0 && md5_s()[i as int] < 32);
        }
        let rot = (t << sh) | (t >> (32 - sh));
        let next = (st.3, st.1.wrapping_add(rot), st.1, st.2);
        assert(next == md5_step(st, m@, i as int));
        st = next;
        i += 1;
    }
    (h.0.wrapping_add(st.0), h.1.wrapping_add(st.1), h.2.wrapping_add(st.2), h.3.wrapping_add(st.3))
}

/// The MD5 digest of a message.
pub fn md5(msg: &[u8]) -> (r: [u8; 16])
    requires
        msg@.len() < 0x10000000,
    ensures
        r@ == md5_of(msg@),
{
    let mut p: Vec<u8> = Vec::new();
    crate::target::push_bytes(&mut p, msg);
    p.push(0x80);
    let z: usize = (119 - msg.len() % 64) % 64;
    let mut i: usize = 0;
    while i < z
        invariant
            i <= z,
            p@ == msg@ + seq![0x80u8] + Seq::new(i as nat, |q: int| 0u8),
        decreases z - i,
    {
        p.push(0);
        assert(p@ =~= msg@ + seq![0x80u8] + Seq::new((i + 1) as nat, |q: int| 0u8));
        i += 1;
    }
    let bits: u64 = msg.len() as u64 * 8;
    let tail: [u8; 8] = [
        (bits % 256) as u8,
        ((bits / 0x100) % 256) as u8,
        ((bits / 0x10000) % 256) as u8,
        ((bits / 0x1000000) % 256) as u8,
        ((bits / 0x100000000) % 256) as u8,
        ((bits / 0x10000000000) % 256) as u8,
        ((bits / 0x1000000000000) % 256) as u8,
        ((bits / 0x100000000000000) % 256) as u8,
    ];
    assert(tail@ =~= le64_bytes((msg@.len() * 8) as u64));
    crate::target::push_bytes(&mut p, &tail);
    assert(p@ =~= md5_pad(msg@));
    assert(p@.len() < 0x20000000);
    let mut h: (u32, u32, u32, u32) = (0x67452301, 0xefcdab89, 0x98badcfe, 0x10325476);
    let mut off: usize = 0;
    while off + 64 <= p.len()
        invariant
            off <= p@.len(),
            p@ == md5_pad(msg@),
            p@.len() < 0x20000000,
            md5_fold(h, p@, off as int) == md5_fold(md5_init(), p@, 0),
        decreases p@.len() - off,
    {
        h = compress(h, &p, off);
        off = off + 64;
    }
    let mut r = [0u8; 16];
    let words: [u32; 4] = [h.0, h.1, h.2, h.3];
    let mut w: usize = 0;
    while w < 4
        invariant
            w <= 4,
            forall|q: int| 0 <= q < 4 * w ==> r@[q] == #[trigger] (le32_bytes(h.0) + le32_bytes(h.1) + le32_bytes(h.2)
                + le32_bytes(h.3))[q],
            words@ == seq![h.0, h.1, h.2, h.3],
        decreases 4 - w,
    {
        let x = words[w];
        r[4 * w] = (x % 256) as u8;
        r[4 * w + 1] = ((x / 256) % 256) as u8;
        r[4 * w + 2] = ((x / 65536) % 256) as u8;
        r[4 * w + 3] = (x / 16777216) as u8;
        w += 1;
    }
    assert(r@ =~= md5_of(msg@));
    r
}

} // verus!
