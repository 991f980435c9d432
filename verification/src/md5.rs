//! MD5 (RFC 1321): the digest that an upload's Content-MD5 header carries.
//! The message is padded to whole 64-byte blocks, each block is mixed into a
//! four-word state by 64 steps, and the state's words, little-endian, are the
//! digest. Not for security; only for checking that bytes arrived intact.
use vstd::prelude::*;

verus! {

/// Addition of 32-bit words, wrapping.
pub open spec fn wadd(x: u32, y: u32) -> u32 {
    vstd::wrapping::u32_specs::wrapping_add(x, y)
}

/// The step constants: the integer part of `2^32 * |sin(i + 1)|`.
pub open spec fn md5_k() -> Seq<u32> {
    seq![
        0xd76aa478u32, 0xe8c7b756u32, 0x242070dbu32, 0xc1bdceeeu32,
        0xf57c0fafu32, 0x4787c62au32, 0xa8304613u32, 0xfd469501u32,
        0x698098d8u32, 0x8b44f7afu32, 0xffff5bb1u32, 0x895cd7beu32,
        0x6b901122u32, 0xfd987193u32, 0xa679438eu32, 0x49b40821u32,
        0xf61e2562u32, 0xc040b340u32, 0x265e5a51u32, 0xe9b6c7aau32,
        0xd62f105du32, 0x02441453u32, 0xd8a1e681u32, 0xe7d3fbc8u32,
        0x21e1cde6u32, 0xc33707d6u32, 0xf4d50d87u32, 0x455a14edu32,
        0xa9e3e905u32, 0xfcefa3f8u32, 0x676f02d9u32, 0x8d2a4c8au32,
        0xfffa3942u32, 0x8771f681u32, 0x6d9d6122u32, 0xfde5380cu32,
        0xa4beea44u32, 0x4bdecfa9u32, 0xf6bb4b60u32, 0xbebfbc70u32,
        0x289b7ec6u32, 0xeaa127fau32, 0xd4ef3085u32, 0x04881d05u32,
        0xd9d4d039u32, 0xe6db99e5u32, 0x1fa27cf8u32, 0xc4ac5665u32,
        0xf4292244u32, 0x432aff97u32, 0xab9423a7u32, 0xfc93a039u32,
        0x655b59c3u32, 0x8f0ccc92u32, 0xffeff47du32, 0x85845dd1u32,
        0x6fa87e4fu32, 0xfe2ce6e0u32, 0xa3014314u32, 0x4e0811a1u32,
        0xf7537e82u32, 0xbd3af235u32, 0x2ad7d2bbu32, 0xeb86d391u32,
    ]
}

/// How far step `i` rotates.
pub open spec fn md5_shift(i: int) -> u32 {
    let j = i % 4;
    if i < 16 {
        if j == 0 { 7 } else if j == 1 { 12 } else if j == 2 { 17 } else { 22 }
    } else if i < 32 {
        if j == 0 { 5 } else if j == 1 { 9 } else if j == 2 { 14 } else { 20 }
    } else if i < 48 {
        if j == 0 { 4 } else if j == 1 { 11 } else if j == 2 { 16 } else { 23 }
    } else {
        if j == 0 { 6 } else if j == 1 { 10 } else if j == 2 { 15 } else { 21 }
    }
}

/// Which word of the block step `i` reads.
pub open spec fn md5_index(i: int) -> int {
    if i < 16 {
        i
    } else if i < 32 {
        (5 * i + 1) % 16
    } else if i < 48 {
        (3 * i + 5) % 16
    } else {
        (7 * i) % 16
    }
}

/// The round function of step `i` (F, G, H or I of RFC 1321).
pub open spec fn md5_mix(i: int, b: u32, c: u32, d: u32) -> u32 {
    if i < 16 {
        (b & c) | (!b & d)
    } else if i < 32 {
        (d & b) | (!d & c)
    } else if i < 48 {
        b ^ c ^ d
    } else {
        c ^ (b | !d)
    }
}

/// `x` rotated left by `s` bits (`0 < s < 32`).
pub open spec fn rotl(x: u32, s: u32) -> u32 {
    (x << s) | (x >> ((32 - s) as u32))
}

/// Step `i` on the state `(a, b, c, d)` with the block's words `m`.
pub open spec fn md5_step(st: (u32, u32, u32, u32), m: Seq<u32>, i: int) -> (u32, u32, u32, u32) {
    let f = md5_mix(i, st.1, st.2, st.3);
    let t = wadd(wadd(wadd(st.0, f), md5_k()[i]), m[md5_index(i)]);
    (st.3, wadd(st.1, rotl(t, md5_shift(i))), st.1, st.2)
}

/// The first `n` steps.
pub open spec fn md5_rounds(st: (u32, u32, u32, u32), m: Seq<u32>, n: nat) -> (u32, u32, u32, u32)
    decreases n,
{
    if n == 0 {
        st
    } else {
        md5_step(md5_rounds(st, m, (n - 1) as nat), m, n - 1)
    }
}

/// One block: the 64 steps, added word by word to the state they started from.
pub open spec fn md5_compress(st: (u32, u32, u32, u32), m: Seq<u32>) -> (u32, u32, u32, u32) {
    let r = md5_rounds(st, m, 64);
    (wadd(st.0, r.0), wadd(st.1, r.1), wadd(st.2, r.2), wadd(st.3, r.3))
}

/// The little-endian word at `p[o..o + 4]`.
pub open spec fn le_word(p: Seq<u8>, o: int) -> u32 {
    (p[o] as u32) | ((p[o + 1] as u32) << 8u32) | ((p[o + 2] as u32) << 16u32) | ((p[o + 3]
        as u32) << 24u32)
}

/// The sixteen words of the block at `off`.
pub open spec fn block_words(p: Seq<u8>, off: int) -> Seq<u32> {
    Seq::new(16, |j: int| le_word(p, off + 4 * j))
}

/// The initial state.
pub open spec fn md5_iv() -> (u32, u32, u32, u32) {
    (0x67452301u32, 0xefcdab89u32, 0x98badcfeu32, 0x10325476u32)
}

/// The state after the first `n` blocks of `p`.
pub open spec fn md5_blocks(p: Seq<u8>, n: nat) -> (u32, u32, u32, u32)
    decreases n,
{
    if n == 0 {
        md5_iv()
    } else {
        md5_compress(md5_blocks(p, (n - 1) as nat), block_words(p, 64 * (n - 1)))
    }
}

/// How many zero bytes follow the `0x80` so that 8 bytes short of a whole block remain.
pub open spec fn zero_fill(len: nat) -> nat {
    ((119 - (len % 64)) % 64) as nat
}

/// The message length in bits, modulo `2^64`.
pub open spec fn bit_length(len: nat) -> u64 {
    ((len * 8) % 0x1_0000_0000_0000_0000) as u64
}

/// `bl` as 8 little-endian bytes.
pub open spec fn length_bytes(bl: u64) -> Seq<u8> {
    Seq::new(8, |j: int| (bl >> ((8 * j) as u64)) as u8)
}

/// The padded message: the bytes, `0x80`, zeros, and the bit length.
pub open spec fn md5_pad(msg: Seq<u8>) -> Seq<u8> {
    msg + seq![0x80u8] + Seq::new(zero_fill(msg.len()), |i: int| 0u8) + length_bytes(
        bit_length(msg.len()),
    )
}

/// A word as 4 little-endian bytes.
pub open spec fn word_bytes(x: u32) -> Seq<u8> {
    seq![x as u8, (x >> 8u32) as u8, (x >> 16u32) as u8, (x >> 24u32) as u8]
}

/// The MD5 digest (16 bytes) of `msg`.
pub open spec fn md5(msg: Seq<u8>) -> Seq<u8> {
    let p = md5_pad(msg);
    let st = md5_blocks(p, p.len() / 64);
    word_bytes(st.0) + word_bytes(st.1) + word_bytes(st.2) + word_bytes(st.3)
}

/// The padded message, whose length is a whole number of blocks.
pub fn md5_padded(data: &[u8]) -> (r: Vec<u8>)
    requires
        data@.len() + 72 <= usize::MAX,
    ensures
        r@ == md5_pad(data@),
        r@.len() % 64 == 0,
{
    let mut p: Vec<u8> = Vec::new();
    let mut i: usize = 0;
    while i < data.len()
        invariant
            i <= data.len(),
            p@ == data@.take(i as int),
        decreases data.len() - i,
    {
        p.push(data[i]);
        i = i + 1;
        assert(data@.take(i as int) =~= data@.take(i - 1).push(data@[i - 1]));
    }
    assert(data@.take(data.len() as int) =~= data@);
    p.push(0x80u8);
    let rem: usize = data.len() % 64;
    let fill: usize = (119 - rem) % 64;
    assert(fill == zero_fill(data@.len()));
    let mut z: usize = 0;
    while z < fill
        invariant
            z <= fill,
            fill < 64,
            data@.len() + 72 <= usize::MAX,
            p@ == data@ + seq![0x80u8] + Seq::new(z as nat, |k: int| 0u8),
        decreases fill - z,
    {
        p.push(0u8);
        z = z + 1;
        assert(Seq::new(z as nat, |k: int| 0u8) =~= Seq::new((z - 1) as nat, |k: int| 0u8).push(0u8));
    }
    let bl: u64 = (data.len() as u64).wrapping_mul(8);
    assert(bl == bit_length(data@.len()));
    let ghost before = p@;
    let mut j: u64 = 0;
    while j < 8
        invariant
            j <= 8,
            before == data@ + seq![0x80u8] + Seq::new(zero_fill(data@.len()), |k: int| 0u8),
            before.len() == data@.len() + 1 + zero_fill(data@.len()),
            zero_fill(data@.len()) < 64,
            data@.len() + 72 <= usize::MAX,
            p@ == before + length_bytes(bl).take(j as int),
        decreases 8 - j,
    {
        p.push((bl >> (8 * j)) as u8);
        j = j + 1;
        assert(length_bytes(bl).take(j as int) =~= length_bytes(bl).take(j - 1).push(
            length_bytes(bl)[j - 1],
        ));
    }
    assert(length_bytes(bl).take(8) =~= length_bytes(bl));
    p
}

/// How far step `i` rotates.
fn shift_of(i: usize) -> (r: u32)
    requires
        i < 64,
    ensures
        r == md5_shift(i as int),
        4 <= r <= 23,
{
    let j: usize = i % 4;
    if i < 16 {
        if j == 0 { 7 } else if j == 1 { 12 } else if j == 2 { 17 } else { 22 }
    } else if i < 32 {
        if j == 0 { 5 } else if j == 1 { 9 } else if j == 2 { 14 } else { 20 }
    } else if i < 48 {
        if j == 0 { 4 } else if j == 1 { 11 } else if j == 2 { 16 } else { 23 }
    } else {
        if j == 0 { 6 } else if j == 1 { 10 } else if j == 2 { 15 } else { 21 }
    }
}

/// The sixteen words of the block of `p` at `off`.
pub fn read_words(p: &Vec<u8>, off: usize) -> (r: Vec<u32>)
    requires
        off + 64 <= p@.len(),
    ensures
        r@ == block_words(p@, off as int),
{
    let mut m: Vec<u32> = Vec::new();
    let n: usize = p.len();
    let mut j: usize = 0;
    while j < 16
        invariant
            j <= 16,
            n == p@.len(),
            off + 64 <= p@.len(),
            m@.len() == j,
            forall|k: int| 0 <= k < j ==> m@[k] == le_word(p@, off + 4 * k),
        decreases 16 - j,
    {
        let o: usize = off + 4 * j;
        let w: u32 = (p[o] as u32) | ((p[o + 1] as u32) << 8u32) | ((p[o + 2] as u32) << 16u32)
            | ((p[o + 3] as u32) << 24u32);
        m.push(w);
        j = j + 1;
    }
    assert(m@ =~= block_words(p@, off as int));
    m
}

/// One block mixed into the state.
pub fn compress(st: (u32, u32, u32, u32), m: &Vec<u32>) -> (r: (u32, u32, u32, u32))
    requires
        m@.len() == 16,
    ensures
        r == md5_compress(st, m@),
{
    let k: [u32; 64] = [
        0xd76aa478, 0xe8c7b756, 0x242070db, 0xc1bdceee,
        0xf57c0faf, 0x4787c62a, 0xa8304613, 0xfd469501,
        0x698098d8, 0x8b44f7af, 0xffff5bb1, 0x895cd7be,
        0x6b901122, 0xfd987193, 0xa679438e, 0x49b40821,
        0xf61e2562, 0xc040b340, 0x265e5a51, 0xe9b6c7aa,
        0xd62f105d, 0x02441453, 0xd8a1e681, 0xe7d3fbc8,
        0x21e1cde6, 0xc33707d6, 0xf4d50d87, 0x455a14ed,
        0xa9e3e905, 0xfcefa3f8, 0x676f02d9, 0x8d2a4c8a,
        0xfffa3942, 0x8771f681, 0x6d9d6122, 0xfde5380c,
        0xa4beea44, 0x4bdecfa9, 0xf6bb4b60, 0xbebfbc70,
        0x289b7ec6, 0xeaa127fa, 0xd4ef3085, 0x04881d05,
        0xd9d4d039, 0xe6db99e5, 0x1fa27cf8, 0xc4ac5665,
        0xf4292244, 0x432aff97, 0xab9423a7, 0xfc93a039,
        0x655b59c3, 0x8f0ccc92, 0xffeff47d, 0x85845dd1,
        0x6fa87e4f, 0xfe2ce6e0, 0xa3014314, 0x4e0811a1,
        0xf7537e82, 0xbd3af235, 0x2ad7d2bb, 0xeb86d391,
    ];
    assert(k@ =~= md5_k());
    let mut a: u32 = st.0;
    let mut b: u32 = st.1;
    let mut c: u32 = st.2;
    let mut d: u32 = st.3;
    let mut i: usize = 0;
    while i < 64
        invariant
            i <= 64,
            m@.len() == 16,
            k@ == md5_k(),
            (a, b, c, d) == md5_rounds(st, m@, i as nat),
        decreases 64 - i,
    {
        let f: u32 = if i < 16 {
            (b & c) | (!b & d)
        } else if i < 32 {
            (d & b) | (!d & c)
        } else if i < 48 {
            b ^ c ^ d
        } else {
            c ^ (b | !d)
        };
        let g: usize = if i < 16 {
            i
        } else if i < 32 {
            (5 * i + 1) % 16
        } else if i < 48 {
            (3 * i + 5) % 16
        } else {
            (7 * i) % 16
        };
        let s: u32 = shift_of(i);
        let t: u32 = a.wrapping_add(f).wrapping_add(k[i]).wrapping_add(m[g]);
        let rot: u32 = (t << s) | (t >> (32 - s));
        let nb: u32 = b.wrapping_add(rot);
        a = d;
        d = c;
        c = b;
        b = nb;
        i = i + 1;
    }
    (st.0.wrapping_add(a), st.1.wrapping_add(b), st.2.wrapping_add(c), st.3.wrapping_add(d))
}

} // verus!
