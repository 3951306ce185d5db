//! SHA-256 (FIPS 180-4).

use vstd::prelude::*;

verus! {

/// The round constants: the first 32 bits of the fractional parts of the cube roots of
/// the first 64 primes.
pub const ROUND_CONSTANTS: [u32; 64] = [
    0x428a_2f98, 0x7137_4491, 0xb5c0_fbcf, 0xe9b5_dba5, 0x3956_c25b, 0x59f1_11f1, 0x923f_82a4,
    0xab1c_5ed5, 0xd807_aa98, 0x1283_5b01, 0x2431_85be, 0x550c_7dc3, 0x72be_5d74, 0x80de_b1fe,
    0x9bdc_06a7, 0xc19b_f174, 0xe49b_69c1, 0xefbe_4786, 0x0fc1_9dc6, 0x240c_a1cc, 0x2de9_2c6f,
    0x4a74_84aa, 0x5cb0_a9dc, 0x76f9_88da, 0x983e_5152, 0xa831_c66d, 0xb003_27c8, 0xbf59_7fc7,
    0xc6e0_0bf3, 0xd5a7_9147, 0x06ca_6351, 0x1429_2967, 0x27b7_0a85, 0x2e1b_2138, 0x4d2c_6dfc,
    0x5338_0d13, 0x650a_7354, 0x766a_0abb, 0x81c2_c92e, 0x9272_2c85, 0xa2bf_e8a1, 0xa81a_664b,
    0xc24b_8b70, 0xc76c_51a3, 0xd192_e819, 0xd699_0624, 0xf40e_3585, 0x106a_a070, 0x19a4_c116,
    0x1e37_6c08, 0x2748_774c, 0x34b0_bcb5, 0x391c_0cb3, 0x4ed8_aa4a, 0x5b9c_ca4f, 0x682e_6ff3,
    0x748f_82ee, 0x78a5_636f, 0x84c8_7814, 0x8cc7_0208, 0x90be_fffa, 0xa450_6ceb, 0xbef9_a3f7,
    0xc671_78f2,
];

/// The eight working words of the compression function.
#[derive(Clone, Copy)]
pub struct Words {
    pub a: u32,
    pub b: u32,
    pub c: u32,
    pub d: u32,
    pub e: u32,
    pub f: u32,
    pub g: u32,
    pub h: u32,
}

/// The hash value before any block: the first 32 bits of the fractional parts of the
/// square roots of the first eight primes.
pub open spec fn initial_words() -> Words {
    Words {
        a: 0x6a09_e667,
        b: 0xbb67_ae85,
        c: 0x3c6e_f372,
        d: 0xa54f_f53a,
        e: 0x510e_527f,
        f: 0x9b05_688c,
        g: 0x1f83_d9ab,
        h: 0x5be0_cd19,
    }
}

/// `x` rotated right by `n` bits.
pub open spec fn rotated_right(x: u32, n: u32) -> u32 {
    (x >> n) | (x << ((32 - n) as u32))
}

/// The 32-bit big-endian word at `bytes[at..at + 4]`.
pub open spec fn be_word(bytes: Seq<u8>, at: int) -> u32 {
    ((bytes[at] as u32) << 24u32) | ((bytes[at + 1] as u32) << 16u32) | ((bytes[at + 2] as u32)
        << 8u32) | (bytes[at + 3] as u32)
}

/// Word `t` of the message schedule of one 64-byte block.
pub open spec fn schedule_word(block: Seq<u8>, t: nat) -> u32
    decreases t,
{
    if t < 16 {
        be_word(block, 4 * t as int)
    } else {
        let x = schedule_word(block, (t - 15) as nat);
        let y = schedule_word(block, (t - 2) as nat);
        let s0 = rotated_right(x, 7) ^ rotated_right(x, 18) ^ (x >> 3u32);
        let s1 = rotated_right(y, 17) ^ rotated_right(y, 19) ^ (y >> 10u32);
        schedule_word(block, (t - 16) as nat).wrapping_add(s0).wrapping_add(
            schedule_word(block, (t - 7) as nat),
        ).wrapping_add(s1)
    }
}

/// One round with round constant `k` and schedule word `w`.
pub open spec fn round(s: Words, k: u32, w: u32) -> Words {
    let s1 = rotated_right(s.e, 6) ^ rotated_right(s.e, 11) ^ rotated_right(s.e, 25);
    let ch = (s.e & s.f) ^ ((!s.e) & s.g);
    let t1 = s.h.wrapping_add(s1).wrapping_add(ch).wrapping_add(k).wrapping_add(w);
    let s0 = rotated_right(s.a, 2) ^ rotated_right(s.a, 13) ^ rotated_right(s.a, 22);
    let maj = (s.a & s.b) ^ (s.a & s.c) ^ (s.b & s.c);
    let t2 = s0.wrapping_add(maj);
    Words {
        a: t1.wrapping_add(t2),
        b: s.a,
        c: s.b,
        d: s.c,
        e: s.d.wrapping_add(t1),
        f: s.e,
        g: s.f,
        h: s.g,
    }
}

/// The working words after the first `t` rounds on `block`, started from `s`.
pub open spec fn rounds(s: Words, block: Seq<u8>, t: nat) -> Words
    decreases t,
{
    if t == 0 {
        s
    } else {
        round(
            rounds(s, block, (t - 1) as nat),
            ROUND_CONSTANTS@[t - 1],
            schedule_word(block, (t - 1) as nat),
        )
    }
}

/// The hash value after one block.
pub open spec fn compressed(s: Words, block: Seq<u8>) -> Words {
    let r = rounds(s, block, 64);
    Words {
        a: s.a.wrapping_add(r.a),
        b: s.b.wrapping_add(r.b),
        c: s.c.wrapping_add(r.c),
        d: s.d.wrapping_add(r.d),
        e: s.e.wrapping_add(r.e),
        f: s.f.wrapping_add(r.f),
        g: s.g.wrapping_add(r.g),
        h: s.h.wrapping_add(r.h),
    }
}

/// The hash value after the first `n` 64-byte blocks of `padded`.
pub open spec fn hashed_blocks(padded: Seq<u8>, n: nat) -> Words
    decreases n,
{
    if n == 0 {
        initial_words()
    } else {
        compressed(
            hashed_blocks(padded, (n - 1) as nat),
            padded.subrange(64 * (n - 1), 64 * n as int),
        )
    }
}

/// The eight big-endian bytes of `x`.
pub open spec fn be_bytes_64(x: u64) -> Seq<u8> {
    Seq::new(8, |i: int| ((x >> ((56 - 8 * i) as u64)) & 0xff) as u8)
}

/// How many zero bytes stand between the `0x80` byte and the length of a message of
/// `len` bytes: as few as make the padded message a whole number of blocks.
pub open spec fn padding_zeros(len: nat) -> nat {
    ((119 - len as int % 64) % 64) as nat
}

/// The message, a `0x80` byte, zeros, and the length of the message in bits (modulo
/// 2^64) as eight bytes.
pub open spec fn padded(data: Seq<u8>) -> Seq<u8> {
    data.push(0x80u8) + Seq::new(padding_zeros(data.len()), |i: int| 0u8) + be_bytes_64(
        ((data.len() * 8) % 0x1_0000_0000_0000_0000) as u64,
    )
}

/// The four big-endian bytes of `x`.
pub open spec fn be_bytes_32(x: u32) -> Seq<u8> {
    Seq::new(4, |i: int| ((x >> ((24 - 8 * i) as u32)) & 0xff) as u8)
}

/// The SHA-256 digest of `data`.
pub open spec fn sha256(data: Seq<u8>) -> Seq<u8> {
    let p = padded(data);
    let w = hashed_blocks(p, p.len() / 64);
    be_bytes_32(w.a) + be_bytes_32(w.b) + be_bytes_32(w.c) + be_bytes_32(w.d) + be_bytes_32(w.e)
        + be_bytes_32(w.f) + be_bytes_32(w.g) + be_bytes_32(w.h)
}

/// The padded message is a whole number of 64-byte blocks.
pub proof fn lemma_padded_len(data: Seq<u8>)
    ensures
        padded(data).len() == data.len() + 9 + padding_zeros(data.len()),
        padded(data).len() % 64 == 0,
{
}

/// A digest has 32 bytes.
pub proof fn lemma_sha256_len(data: Seq<u8>)
    ensures
        sha256(data).len() == 32,
{
}

fn rotate_right(x: u32, n: u32) -> (r: u32)
    requires
        0 < n < 32,
    ensures
        r == rotated_right(x, n),
{
    (x >> n) | (x << (32 - n))
}

/// The message schedule of one block.
fn schedule(data: &Vec<u8>, start: usize) -> (w: Vec<u32>)
    requires
        start + 64 <= data@.len(),
    ensures
        w@.len() == 64,
        forall|t: int|
            0 <= t < 64 ==> w@[t] == schedule_word(
                data@.subrange(start as int, start + 64),
                t as nat,
            ),
{
    let ghost block = data@.subrange(start as int, start + 64);
    let len: usize = data.len();
    let mut w: Vec<u32> = Vec::new();
    let mut t: usize = 0;
    while t < 16
        invariant
            t <= 16,
            start + 64 <= len == data@.len(),
            block == data@.subrange(start as int, start + 64),
            w@.len() == t,
            forall|j: int| 0 <= j < t ==> w@[j] == schedule_word(block, j as nat),
        decreases 16 - t,
    {
        let at: usize = start + t * 4;
        let x: u32 = ((data[at] as u32) << 24u32) | ((data[at + 1] as u32) << 16u32) | ((data[at + 2]
            as u32) << 8u32) | (data[at + 3] as u32);
        assert(x == be_word(block, 4 * t as int));
        w.push(x);
        t += 1;
    }
    while t < 64
        invariant
            16 <= t <= 64,
            w@.len() == t,
            forall|j: int| 0 <= j < t ==> w@[j] == schedule_word(block, j as nat),
        decreases 64 - t,
    {
        let x: u32 = w[t - 15];
        let y: u32 = w[t - 2];
        let s0: u32 = rotate_right(x, 7) ^ rotate_right(x, 18) ^ (x >> 3u32);
        let s1: u32 = rotate_right(y, 17) ^ rotate_right(y, 19) ^ (y >> 10u32);
        let z: u32 = w[t - 16].wrapping_add(s0).wrapping_add(w[t - 7]).wrapping_add(s1);
        assert(z == schedule_word(block, t as nat));
        w.push(z);
        t += 1;
    }
    w
}

/// One round of the compression function.
fn do_round(s: Words, k: u32, w: u32) -> (r: Words)
    ensures
        r == round(s, k, w),
{
    let s1: u32 = rotate_right(s.e, 6) ^ rotate_right(s.e, 11) ^ rotate_right(s.e, 25);
    let ch: u32 = (s.e & s.f) ^ ((!s.e) & s.g);
    let t1: u32 = s.h.wrapping_add(s1).wrapping_add(ch).wrapping_add(k).wrapping_add(w);
    let s0: u32 = rotate_right(s.a, 2) ^ rotate_right(s.a, 13) ^ rotate_right(s.a, 22);
    let maj: u32 = (s.a & s.b) ^ (s.a & s.c) ^ (s.b & s.c);
    let t2: u32 = s0.wrapping_add(maj);
    Words {
        a: t1.wrapping_add(t2),
        b: s.a,
        c: s.b,
        d: s.c,
        e: s.d.wrapping_add(t1),
        f: s.e,
        g: s.f,
        h: s.g,
    }
}

/// The hash value after the block that starts at `start`.
fn compress(s: Words, data: &Vec<u8>, start: usize) -> (r: Words)
    requires
        start + 64 <= data@.len(),
    ensures
        r == compressed(s, data@.subrange(start as int, start + 64)),
{
    let ghost block = data@.subrange(start as int, start + 64);
    let w = schedule(data, start);
    let mut x: Words = s;
    let mut t: usize = 0;
    while t < 64
        invariant
            t <= 64,
            w@.len() == 64,
            forall|j: int| 0 <= j < 64 ==> w@[j] == schedule_word(block, j as nat),
            x == rounds(s, block, t as nat),
        decreases 64 - t,
    {
        x = do_round(x, ROUND_CONSTANTS[t], w[t]);
        t += 1;
    }
    Words {
        a: s.a.wrapping_add(x.a),
        b: s.b.wrapping_add(x.b),
        c: s.c.wrapping_add(x.c),
        d: s.d.wrapping_add(x.d),
        e: s.e.wrapping_add(x.e),
        f: s.f.wrapping_add(x.f),
        g: s.g.wrapping_add(x.g),
        h: s.h.wrapping_add(x.h),
    }
}

/// The padded message.
fn pad(data: &[u8]) -> (p: Vec<u8>)
    ensures
        p@ == padded(data@),
{
    let mut p: Vec<u8> = Vec::new();
    let mut i: usize = 0;
    while i < data.len()
        invariant
            i <= data@.len(),
            p@ == data@.take(i as int),
        decreases data@.len() - i,
    {
        p.push(data[i]);
        i += 1;
        assert(data@.take(i as int) =~= data@.take(i - 1).push(data@[i - 1]));
    }
    assert(data@.take(data@.len() as int) =~= data@);
    p.push(0x80);
    let zeros: usize = (119 - data.len() % 64) % 64;
    let mut z: usize = 0;
    while z < zeros
        invariant
            z <= zeros,
            zeros == padding_zeros(data@.len()),
            p@ == data@.push(0x80u8) + Seq::new(z as nat, |i: int| 0u8),
        decreases zeros - z,
    {
        p.push(0);
        z += 1;
        assert(p@ =~= data@.push(0x80u8) + Seq::new(z as nat, |i: int| 0u8));
    }
    let ghost before = p@;
    let bit_len: u64 = (data.len() as u64).wrapping_mul(8);
    let mut b: usize = 0;
    while b < 8
        invariant
            b <= 8,
            p@ == before + be_bytes_64(bit_len).take(b as int),
        decreases 8 - b,
    {
        let shift: u64 = 56 - 8 * (b as u64);
        let byte: u8 = ((bit_len >> shift) & 0xff) as u8;
        p.push(byte);
        b += 1;
        assert(be_bytes_64(bit_len).take(b as int) =~= be_bytes_64(bit_len).take(b - 1).push(byte));
        assert(p@ =~= before + be_bytes_64(bit_len).take(b as int));
    }
    assert(be_bytes_64(bit_len).take(8) =~= be_bytes_64(bit_len));
    assert(p@ =~= padded(data@));
    p
}

fn push_word(out: &mut Vec<u8>, x: u32)
    ensures
        final(out)@ == old(out)@ + be_bytes_32(x),
{
    out.push(((x >> 24u32) & 0xff) as u8);
    out.push(((x >> 16u32) & 0xff) as u8);
    out.push(((x >> 8u32) & 0xff) as u8);
    out.push(((x >> 0u32) & 0xff) as u8);
    assert(out@ =~= old(out)@ + be_bytes_32(x));
}

/// The SHA-256 digest of `data`.
pub fn sha256_of(data: &[u8]) -> (digest: Vec<u8>)
    ensures
        digest@ == sha256(data@),
        digest@.len() == 32,
{
    let p = pad(data);
    proof {
        lemma_padded_len(data@);
        lemma_sha256_len(data@);
    }
    let blocks: usize = p.len() / 64;
    let mut s: Words = Words {
        a: 0x6a09_e667,
        b: 0xbb67_ae85,
        c: 0x3c6e_f372,
        d: 0xa54f_f53a,
        e: 0x510e_527f,
        f: 0x9b05_688c,
        g: 0x1f83_d9ab,
        h: 0x5be0_cd19,
    };
    let mut i: usize = 0;
    while i < blocks
        invariant
            i <= blocks,
            p@.len() == 64 * blocks <= usize::MAX,
            s == hashed_blocks(p@, i as nat),
        decreases blocks - i,
    {
        s = compress(s, &p, 64 * i);
        i += 1;
    }
    let mut out: Vec<u8> = Vec::new();
    push_word(&mut out, s.a);
    push_word(&mut out, s.b);
    push_word(&mut out, s.c);
    push_word(&mut out, s.d);
    push_word(&mut out, s.e);
    push_word(&mut out, s.f);
    push_word(&mut out, s.g);
    push_word(&mut out, s.h);
    assert(out@ =~= sha256(data@));
    out
}

/// A padded message is the message, the byte `0x80`, zeros, and the number of bits of the message
/// in eight bytes; it fills whole blocks of 64 bytes, and no fewer would do.
pub proof fn law_padded(data: Seq<u8>)
    ensures
        ({
            let p = padded(data);
            let n = data.len() as int;
            let bits = ((n * 8) % 0x1_0000_0000_0000_0000) as u64;
            &&& p.len() % 64 == 0
            &&& n + 9 <= p.len() < n + 9 + 64
            &&& p.take(n) == data
            &&& p[n] == 0x80
            &&& forall|i: int| n < i < p.len() - 8 ==> #[trigger] p[i] == 0
            &&& forall|i: int|
                0 <= i < 8 ==> #[trigger] p[p.len() - 8 + i] == ((bits >> ((56 - 8 * i) as u64))
                    & 0xff) as u8
        }),
{
    lemma_padded_len(data);
    assert(padded(data).take(data.len() as int) =~= data);
}

/// Bits that are rotated out at one end come in at the other.
pub proof fn law_rotated(x: u32, n: u32)
    requires
        0 < n < 32,
    ensures
        rotated_right(rotated_right(x, n), (32 - n) as u32) == x,
        n == 1 ==> (x % 2 == 0 ==> rotated_right(x, n) == x / 2),
{
    let m = (32 - n) as u32;
    assert(((((x >> n) | (x << m)) >> m) | (((x >> n) | (x << m)) << ((32 - m) as u32))) == x)
        by (bit_vector)
        requires
            0 < n < 32,
            m == 32 - n,
    ;
    assert(x % 2 == 0 ==> ((x >> 1u32) | (x << 31u32)) == x / 2) by (bit_vector);
}

/// A round moves the words on by one place; only the first and the fifth are new.
pub proof fn law_round_moves(s: Words, k: u32, w: u32)
    ensures
        ({
            let r = round(s, k, w);
            r.b == s.a && r.c == s.b && r.d == s.c && r.f == s.e && r.g == s.f && r.h == s.g
        }),
{
}

/// Blocks are hashed one after the other, each on what those before it gave; what follows a block
/// does not matter for it.
pub proof fn law_blocks_in_turn(a: Seq<u8>, b: Seq<u8>, n: nat)
    requires
        64 * n <= a.len(),
        64 * n <= b.len(),
        a.take(64 * n as int) == b.take(64 * n as int),
    ensures
        hashed_blocks(a, n) == hashed_blocks(b, n),
    decreases n,
{
    if n > 0 {
        let m = (n - 1) as nat;
        assert(a.take(64 * m as int) =~= a.take(64 * n as int).take(64 * m as int));
        assert(b.take(64 * m as int) =~= b.take(64 * n as int).take(64 * m as int));
        law_blocks_in_turn(a, b, m);
        assert(a.subrange(64 * (n - 1), 64 * n as int) =~= a.take(64 * n as int).subrange(
            64 * (n - 1),
            64 * n as int,
        ));
        assert(b.subrange(64 * (n - 1), 64 * n as int) =~= b.take(64 * n as int).subrange(
            64 * (n - 1),
            64 * n as int,
        ));
    }
}

} // verus!
