//! SHA-256, as far as the bridge needs it: the first digits of a digest.
use vstd::prelude::*;

verus! {

/// The eight working words.
#[derive(Debug, Clone, Copy, PartialEq, Eq, Structural)]
pub struct Words {
    pub a: u32,
    pub b: u32,
    pub c: u32,
    pub d: u32,
    pub e: u32,
    pub f: u32,
    pub g: u32,
    pub h: u32,
}

/// The words that a digest starts from.
pub open spec fn initial() -> Words {
    Words { a: 0x6a09e667, b: 0xbb67ae85, c: 0x3c6ef372, d: 0xa54ff53a, e: 0x510e527f, f: 0x9b05688c, g: 0x1f83d9ab, h: 0x5be0cd19 }
}

/// The round constants.
pub open spec fn round_constants() -> Seq<u32> {
    seq![
        0x428a2f98u32, 0x71374491u32, 0xb5c0fbcfu32, 0xe9b5dba5u32, 0x3956c25bu32, 0x59f111f1u32, 0x923f82a4u32, 0xab1c5ed5u32,
        0xd807aa98u32, 0x12835b01u32, 0x243185beu32, 0x550c7dc3u32, 0x72be5d74u32, 0x80deb1feu32, 0x9bdc06a7u32, 0xc19bf174u32,
        0xe49b69c1u32, 0xefbe4786u32, 0x0fc19dc6u32, 0x240ca1ccu32, 0x2de92c6fu32, 0x4a7484aau32, 0x5cb0a9dcu32, 0x76f988dau32,
        0x983e5152u32, 0xa831c66du32, 0xb00327c8u32, 0xbf597fc7u32, 0xc6e00bf3u32, 0xd5a79147u32, 0x06ca6351u32, 0x14292967u32,
        0x27b70a85u32, 0x2e1b2138u32, 0x4d2c6dfcu32, 0x53380d13u32, 0x650a7354u32, 0x766a0abbu32, 0x81c2c92eu32, 0x92722c85u32,
        0xa2bfe8a1u32, 0xa81a664bu32, 0xc24b8b70u32, 0xc76c51a3u32, 0xd192e819u32, 0xd6990624u32, 0xf40e3585u32, 0x106aa070u32,
        0x19a4c116u32, 0x1e376c08u32, 0x2748774cu32, 0x34b0bcb5u32, 0x391c0cb3u32, 0x4ed8aa4au32, 0x5b9cca4fu32, 0x682e6ff3u32,
        0x748f82eeu32, 0x78a5636fu32, 0x84c87814u32, 0x8cc70208u32, 0x90befffau32, 0xa4506cebu32, 0xbef9a3f7u32, 0xc67178f2u32,
    ]
}

/// A word rotated to the right.
pub open spec fn rotr(x: u32, n: u32) -> u32 {
    (x >> n) | (x << ((32 - n) as u32))
}

/// The first function of the message schedule.
pub open spec fn small_sigma0(x: u32) -> u32 {
    rotr(x, 7) ^ rotr(x, 18) ^ (x >> 3u32)
}

/// The second function of the message schedule.
pub open spec fn small_sigma1(x: u32) -> u32 {
    rotr(x, 17) ^ rotr(x, 19) ^ (x >> 10u32)
}

/// The function of the first word of a round.
pub open spec fn big_sigma0(x: u32) -> u32 {
    rotr(x, 2) ^ rotr(x, 13) ^ rotr(x, 22)
}

/// The function of the fifth word of a round.
pub open spec fn big_sigma1(x: u32) -> u32 {
    rotr(x, 6) ^ rotr(x, 11) ^ rotr(x, 25)
}

/// The bits of `y` where `x` has ones, and those of `z` elsewhere.
pub open spec fn choice(x: u32, y: u32, z: u32) -> u32 {
    (x & y) ^ (!x & z)
}

/// The bits that at least two of three words have.
pub open spec fn majority(x: u32, y: u32, z: u32) -> u32 {
    (x & y) ^ (x & z) ^ (y & z)
}

/// The word at byte `i` of a block, most significant byte first.
pub open spec fn big_endian(block: Seq<u8>, i: int) -> u32 {
    ((block[i] as u32) << 24u32) | ((block[i + 1] as u32) << 16u32) | ((block[i + 2] as u32)
        << 8u32) | (block[i + 3] as u32)
}

/// Word `t` of the message schedule of a block.
pub open spec fn schedule(block: Seq<u8>, t: int) -> u32
    decreases t,
{
    if t < 16 {
        big_endian(block, 4 * t)
    } else {
        small_sigma1(schedule(block, t - 2)).wrapping_add(schedule(block, t - 7)).wrapping_add(
            small_sigma0(schedule(block, t - 15)),
        ).wrapping_add(schedule(block, t - 16))
    }
}

/// One round on the working words.
pub open spec fn round(s: Words, k: u32, w: u32) -> Words {
    let t1 = s.h.wrapping_add(big_sigma1(s.e)).wrapping_add(choice(s.e, s.f, s.g)).wrapping_add(
        k,
    ).wrapping_add(w);
    let t2 = big_sigma0(s.a).wrapping_add(majority(s.a, s.b, s.c));
    Words {
        a: t1.wrapping_add(t2),
        b: s.a,
        c: s.b,
        d: s.c,
        e: s.d.wrapping_add(t1),
        f: s.e,
        g: s.f,
        h: s.g,
    }
}

/// The working words after `t` rounds on a block.
pub open spec fn rounds(s: Words, block: Seq<u8>, t: int) -> Words
    decreases t,
{
    if t <= 0 {
        s
    } else {
        round(rounds(s, block, t - 1), round_constants()[t - 1], schedule(block, t - 1))
    }
}

/// The sum, word by word.
pub open spec fn summed(x: Words, y: Words) -> Words {
    Words {
        a: x.a.wrapping_add(y.a),
        b: x.b.wrapping_add(y.b),
        c: x.c.wrapping_add(y.c),
        d: x.d.wrapping_add(y.d),
        e: x.e.wrapping_add(y.e),
        f: x.f.wrapping_add(y.f),
        g: x.g.wrapping_add(y.g),
        h: x.h.wrapping_add(y.h),
    }
}

/// The words after the first `n` blocks of a padded message.
pub open spec fn absorbed(m: Seq<u8>, n: int) -> Words
    decreases n,
{
    if n <= 0 {
        initial()
    } else {
        let s = absorbed(m, n - 1);
        summed(s, rounds(s, m.subrange(64 * (n - 1), 64 * n), 64))
    }
}

/// How many zero bytes stand in the padding of a message of `len` bytes.
pub open spec fn zeros_after(len: int) -> int {
    (119 - len % 64) % 64
}

/// The length of a message in bits, as eight bytes, most significant first.
pub open spec fn length_bytes(len: int) -> Seq<u8> {
    let n = ((len * 8) % 0x1_0000_0000_0000_0000) as u64;
    Seq::new(8, |i: int| (n >> ((56 - 8 * i) as u64)) as u8)
}

/// The message with its padding.
pub open spec fn padded(m: Seq<u8>) -> Seq<u8> {
    m + seq![0x80u8] + Seq::new(zeros_after(m.len() as int) as nat, |i: int| 0u8) + length_bytes(
        m.len() as int,
    )
}

/// The words of the digest of a message.
pub open spec fn digest(m: Seq<u8>) -> Words {
    absorbed(padded(m), padded(m).len() as int / 64)
}

/// The hexadecimal digit of a value below sixteen.
pub open spec fn hex_digit(n: u32) -> char {
    if n < 10 {
        (('0' as u8) + n) as char
    } else {
        (('a' as u8) + (n - 10)) as char
    }
}

/// The eight hexadecimal digits of a word.
pub open spec fn word_hex(w: u32) -> Seq<char> {
    Seq::new(8, |i: int| hex_digit((w >> ((28 - 4 * i) as u32)) & 0xf))
}

/// The first sixteen hexadecimal digits of the digest of a message.
pub open spec fn digest_prefix(m: Seq<u8>) -> Seq<char> {
    word_hex(digest(m).a) + word_hex(digest(m).b)
}

fn constants() -> (r: Vec<u32>)
    ensures
        r@ == round_constants(),
{
    let r = vec![
        0x428a2f98u32, 0x71374491u32, 0xb5c0fbcfu32, 0xe9b5dba5u32, 0x3956c25bu32, 0x59f111f1u32, 0x923f82a4u32, 0xab1c5ed5u32,
        0xd807aa98u32, 0x12835b01u32, 0x243185beu32, 0x550c7dc3u32, 0x72be5d74u32, 0x80deb1feu32, 0x9bdc06a7u32, 0xc19bf174u32,
        0xe49b69c1u32, 0xefbe4786u32, 0x0fc19dc6u32, 0x240ca1ccu32, 0x2de92c6fu32, 0x4a7484aau32, 0x5cb0a9dcu32, 0x76f988dau32,
        0x983e5152u32, 0xa831c66du32, 0xb00327c8u32, 0xbf597fc7u32, 0xc6e00bf3u32, 0xd5a79147u32, 0x06ca6351u32, 0x14292967u32,
        0x27b70a85u32, 0x2e1b2138u32, 0x4d2c6dfcu32, 0x53380d13u32, 0x650a7354u32, 0x766a0abbu32, 0x81c2c92eu32, 0x92722c85u32,
        0xa2bfe8a1u32, 0xa81a664bu32, 0xc24b8b70u32, 0xc76c51a3u32, 0xd192e819u32, 0xd6990624u32, 0xf40e3585u32, 0x106aa070u32,
        0x19a4c116u32, 0x1e376c08u32, 0x2748774cu32, 0x34b0bcb5u32, 0x391c0cb3u32, 0x4ed8aa4au32, 0x5b9cca4fu32, 0x682e6ff3u32,
        0x748f82eeu32, 0x78a5636fu32, 0x84c87814u32, 0x8cc70208u32, 0x90befffau32, 0xa4506cebu32, 0xbef9a3f7u32, 0xc67178f2u32,
    ];
    assert(r@ =~= round_constants());
    r
}

fn rotated(x: u32, n: u32) -> (r: u32)
    requires
        0 < n < 32,
    ensures
        r == rotr(x, n),
{
    (x >> n) | (x << (32 - n))
}

fn one_round(s: Words, k: u32, w: u32) -> (r: Words)
    ensures
        r == round(s, k, w),
{
    let s1 = rotated(s.e, 6) ^ rotated(s.e, 11) ^ rotated(s.e, 25);
    let ch = (s.e & s.f) ^ (!s.e & s.g);
    let t1 = s.h.wrapping_add(s1).wrapping_add(ch).wrapping_add(k).wrapping_add(w);
    let s0 = rotated(s.a, 2) ^ rotated(s.a, 13) ^ rotated(s.a, 22);
    let maj = (s.a & s.b) ^ (s.a & s.c) ^ (s.b & s.c);
    let t2 = s0.wrapping_add(maj);
    Words {
        a: t1.wrapping_add(t2),
        b: s.a,
        c: s.b,
        d: s.c,
        e: s.d.wrapping_add(t1),
        f: s.e,
        g: s.f,
        h: s.g,
    }
}

/// The number of bytes of the message with its padding.
fn padded_len(bytes: &[u8]) -> (r: u128)
    ensures
        r == padded(bytes@).len(),
        r % 64 == 0,
        r <= bytes@.len() + 128,
{
    let n: u128 = bytes.len() as u128;
    n + 1 + (119 - n % 64) % 64 + 8
}

/// Byte `i` of the message with its padding.
fn padded_at(bytes: &[u8], i: u128) -> (r: u8)
    requires
        i < padded(bytes@).len(),
    ensures
        r == padded(bytes@)[i as int],
{
    let n: u128 = bytes.len() as u128;
    let z: u128 = (119 - n % 64) % 64;
    if i < n {
        bytes[i as usize]
    } else if i == n {
        0x80
    } else if i < n + 1 + z {
        0
    } else {
        let bits: u64 = (bytes.len() as u64).wrapping_mul(8);
        proof {
            let len = bytes@.len() as int;
            assert(bits == (len * 8) % 0x1_0000_0000_0000_0000) by (nonlinear_arith)
                requires
                    bits == (len as u64).wrapping_mul(8),
                    0 <= len <= u64::MAX,
            ;
            assert(padded(bytes@)[i as int] == length_bytes(len)[i - n - 1 - z]);
        }
        let j: u64 = (i - n - 1 - z) as u64;
        (bits >> (56 - 8 * j)) as u8
    }
}

fn message_schedule(bytes: &[u8], from: u128) -> (w: Vec<u32>)
    requires
        from + 64 <= padded(bytes@).len() <= bytes@.len() + 128,
    ensures
        w@.len() == 64,
        forall|t: int|
            0 <= t < 64 ==> #[trigger] w@[t] == schedule(
                padded(bytes@).subrange(from as int, from + 64),
                t,
            ),
{
    let ghost block = padded(bytes@).subrange(from as int, from + 64);
    let size: usize = bytes.len();
    let mut w: Vec<u32> = Vec::new();
    let mut t: usize = 0;
    while t < 64
        invariant
            t <= 64,
            size == bytes@.len(),
            from + 64 <= padded(bytes@).len() <= bytes@.len() + 128,
            block == padded(bytes@).subrange(from as int, from + 64),
            w@.len() == t,
            forall|j: int| 0 <= j < t ==> #[trigger] w@[j] == schedule(block, j),
        decreases 64 - t,
    {
        if t < 16 {
            let i: u128 = from + 4 * t as u128;
            let b0 = padded_at(bytes, i);
            let b1 = padded_at(bytes, i + 1);
            let b2 = padded_at(bytes, i + 2);
            let b3 = padded_at(bytes, i + 3);
            assert(block[4 * t] == b0);
            assert(block[4 * t + 1] == b1);
            assert(block[4 * t + 2] == b2);
            assert(block[4 * t + 3] == b3);
            w.push(((b0 as u32) << 24) | ((b1 as u32) << 16) | ((b2 as u32) << 8) | (b3 as u32));
        } else {
            let x = w[t - 2];
            let y = w[t - 15];
            let s1 = rotated(x, 17) ^ rotated(x, 19) ^ (x >> 10);
            let s0 = rotated(y, 7) ^ rotated(y, 18) ^ (y >> 3);
            w.push(s1.wrapping_add(w[t - 7]).wrapping_add(s0).wrapping_add(w[t - 16]));
        }
        t += 1;
    }
    w
}

fn word_digits(w: u32, out: &mut String)
    ensures
        final(out)@ == old(out)@ + word_hex(w),
{
    let ghost start = out@;
    let mut i: u32 = 0;
    while i < 8
        invariant
            i <= 8,
            out@ == start + word_hex(w).take(i as int),
        decreases 8 - i,
    {
        let n: u32 = (w >> (28 - 4 * i)) & 0xf;
        assert(n < 16) by (bit_vector)
            requires
                n == (w >> ((28 - 4 * i) as u32)) & 0xf,
        ;
        if n < 10 {
            out.push(('0' as u8 + n as u8) as char);
        } else {
            out.push(('a' as u8 + (n as u8 - 10)) as char);
        }
        i += 1;
        assert(out@ =~= start + word_hex(w).take(i as int));
    }
    assert(word_hex(w).take(8) =~= word_hex(w));
}

/// The first sixteen hexadecimal digits of the digest of `bytes`.
pub fn sha256_hex_16(bytes: &[u8]) -> (r: String)
    ensures
        r@ == digest_prefix(bytes@),
        r@.len() == 16,
{
    let ghost m = padded(bytes@);
    let size: usize = bytes.len();
    let k = constants();
    let mut s = Words { a: 0x6a09e667, b: 0xbb67ae85, c: 0x3c6ef372, d: 0xa54ff53a, e: 0x510e527f, f: 0x9b05688c, g: 0x1f83d9ab, h: 0x5be0cd19 };
    let blocks: u128 = padded_len(bytes) / 64;
    let mut n: u128 = 0;
    while n < blocks
        invariant
            n <= blocks,
            k@ == round_constants(),
            m == padded(bytes@),
            blocks == m.len() / 64,
            size == bytes@.len(),
            m.len() <= size + 128,
            s == absorbed(m, n as int),
        decreases blocks - n,
    {
        let ghost block = m.subrange(64 * n, 64 * n + 64);
        let w = message_schedule(bytes, 64 * n);
        let mut v = s;
        let mut t: usize = 0;
        while t < 64
            invariant
                t <= 64,
                k@ == round_constants(),
                w@.len() == 64,
                forall|j: int| 0 <= j < 64 ==> #[trigger] w@[j] == schedule(block, j),
                v == rounds(s, block, t as int),
            decreases 64 - t,
        {
            v = one_round(v, k[t], w[t]);
            t += 1;
        }
        s = Words {
            a: s.a.wrapping_add(v.a),
            b: s.b.wrapping_add(v.b),
            c: s.c.wrapping_add(v.c),
            d: s.d.wrapping_add(v.d),
            e: s.e.wrapping_add(v.e),
            f: s.f.wrapping_add(v.f),
            g: s.g.wrapping_add(v.g),
            h: s.h.wrapping_add(v.h),
        };
        n += 1;
        assert(m.subrange(64 * (n - 1), 64 * n as int) =~= block);
    }
    let mut out = String::new();
    word_digits(s.a, &mut out);
    word_digits(s.b, &mut out);
    assert(out@ =~= digest_prefix(bytes@));
    out
}

} // verus!
