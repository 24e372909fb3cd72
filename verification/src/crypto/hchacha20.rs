//! HChaCha20: the ChaCha20 core as a key-derivation function.
use vstd::prelude::*;

verus! {

/// `x` rotated left by `n` bits, for `0 < n < 32`.
pub open spec fn spec_rotl(x: u32, n: u32) -> u32 {
    (x << n) | (x >> ((32 - n) as u32))
}

/// Sum modulo 2^32.
pub open spec fn spec_wadd(x: u32, y: u32) -> u32 {
    vstd::wrapping::u32_specs::wrapping_add(x, y)
}

/// The ChaCha quarter round on words `a`, `b`, `c`, `d` of a state.
pub open spec fn spec_quarter_round(s: Seq<u32>, a: int, b: int, c: int, d: int) -> Seq<u32> {
    let a1 = spec_wadd(s[a], s[b]);
    let d1 = spec_rotl(s[d] ^ a1, 16);
    let c1 = spec_wadd(s[c], d1);
    let b1 = spec_rotl(s[b] ^ c1, 12);
    let a2 = spec_wadd(a1, b1);
    let d2 = spec_rotl(d1 ^ a2, 8);
    let c2 = spec_wadd(c1, d2);
    let b2 = spec_rotl(b1 ^ c2, 7);
    s.update(a, a2).update(b, b2).update(c, c2).update(d, d2)
}

/// A column round followed by a diagonal round.
pub open spec fn spec_double_round(s: Seq<u32>) -> Seq<u32> {
    let s = spec_quarter_round(s, 0, 4, 8, 12);
    let s = spec_quarter_round(s, 1, 5, 9, 13);
    let s = spec_quarter_round(s, 2, 6, 10, 14);
    let s = spec_quarter_round(s, 3, 7, 11, 15);
    let s = spec_quarter_round(s, 0, 5, 10, 15);
    let s = spec_quarter_round(s, 1, 6, 11, 12);
    let s = spec_quarter_round(s, 2, 7, 8, 13);
    spec_quarter_round(s, 3, 4, 9, 14)
}

/// `n` double rounds.
pub open spec fn spec_rounds(s: Seq<u32>, n: nat) -> Seq<u32>
    decreases n,
{
    if n == 0 {
        s
    } else {
        spec_double_round(spec_rounds(s, (n - 1) as nat))
    }
}

/// The word that four bytes spell in little-endian order.
pub open spec fn spec_le_u32(b: Seq<u8>) -> u32 {
    (b[0] as int + b[1] as int * 0x100 + b[2] as int * 0x1_0000 + b[3] as int * 0x100_0000) as u32
}

/// Byte `i` of a word, counted from the low end.
pub open spec fn spec_word_byte(w: u32, i: int) -> u8 {
    ((w >> ((8 * i) as u32)) & 0xff) as u8
}

/// The state that HChaCha20 starts from: the four constants, the key, the input.
pub open spec fn spec_initial(key: Seq<u8>, input: Seq<u8>) -> Seq<u32> {
    Seq::new(
        16,
        |i: int|
            if i == 0 {
                0x61707865u32
            } else if i == 1 {
                0x3320646eu32
            } else if i == 2 {
                0x79622d32u32
            } else if i == 3 {
                0x6b206574u32
            } else if i < 12 {
                spec_le_u32(key.subrange(4 * (i - 4), 4 * (i - 4) + 4))
            } else {
                spec_le_u32(input.subrange(4 * (i - 12), 4 * (i - 12) + 4))
            },
    )
}

/// Words 0 to 3 and 12 to 15 of a state as 32 bytes, each word little-endian.
pub open spec fn spec_output(s: Seq<u32>) -> Seq<u8> {
    Seq::new(
        32,
        |i: int|
            spec_word_byte(
                if i < 16 {
                    s[i / 4]
                } else {
                    s[12 + (i - 16) / 4]
                },
                i % 4,
            ),
    )
}

/// HChaCha20 of a 32-byte key and a 16-byte input: twenty rounds of the
/// ChaCha permutation, without the final addition, cut to 32 bytes.
pub open spec fn spec_hchacha20(input: Seq<u8>, key: Seq<u8>) -> Seq<u8> {
    spec_output(spec_rounds(spec_initial(key, input), 10))
}

fn rotl(x: u32, n: u32) -> (r: u32)
    requires
        0 < n < 32,
    ensures
        r == spec_rotl(x, n),
{
    (x << n) | (x >> (32 - n))
}

fn quarter_round(s: &mut [u32; 16], a: usize, b: usize, c: usize, d: usize)
    requires
        a < 16,
        b < 16,
        c < 16,
        d < 16,
    ensures
        final(s)@ == spec_quarter_round(old(s)@, a as int, b as int, c as int, d as int),
{
    let a1: u32 = s[a].wrapping_add(s[b]);
    let d1: u32 = rotl(s[d] ^ a1, 16);
    let c1: u32 = s[c].wrapping_add(d1);
    let b1: u32 = rotl(s[b] ^ c1, 12);
    let a2: u32 = a1.wrapping_add(b1);
    let d2: u32 = rotl(d1 ^ a2, 8);
    let c2: u32 = c1.wrapping_add(d2);
    let b2: u32 = rotl(b1 ^ c2, 7);
    s[a] = a2;
    s[b] = b2;
    s[c] = c2;
    s[d] = d2;
    assert(s@ =~= spec_quarter_round(old(s)@, a as int, b as int, c as int, d as int));
}

fn double_round(s: &mut [u32; 16])
    ensures
        final(s)@ == spec_double_round(old(s)@),
{
    quarter_round(s, 0, 4, 8, 12);
    quarter_round(s, 1, 5, 9, 13);
    quarter_round(s, 2, 6, 10, 14);
    quarter_round(s, 3, 7, 11, 15);
    quarter_round(s, 0, 5, 10, 15);
    quarter_round(s, 1, 6, 11, 12);
    quarter_round(s, 2, 7, 8, 13);
    quarter_round(s, 3, 4, 9, 14);
}

fn le_u32(b: &[u8], at: usize) -> (r: u32)
    requires
        at + 4 <= b@.len(),
    ensures
        r == spec_le_u32(b@.subrange(at as int, at + 4)),
{
    let b0: u32 = b[at] as u32;
    let b1: u32 = b[at + 1] as u32;
    let b2: u32 = b[at + 2] as u32;
    let b3: u32 = b[at + 3] as u32;
    b0 + b1 * 0x100 + b2 * 0x1_0000 + b3 * 0x100_0000
}

fn word_byte(w: u32, i: u32) -> (r: u8)
    requires
        i < 4,
    ensures
        r == spec_word_byte(w, i as int),
{
    let x: u32 = (w >> (8 * i)) & 0xff;
    assert(x < 0x100) by (bit_vector)
        requires
            x == (w >> (8 * i)) & 0xff,
    ;
    x as u8
}

/// HChaCha20 of a 16-byte `input` under a 32-byte `key`.
pub fn hchacha20(input: &[u8], key: &[u8]) -> (out: [u8; 32])
    requires
        input@.len() == 16,
        key@.len() == 32,
    ensures
        out@ == spec_hchacha20(input@, key@),
{
    let mut s: [u32; 16] = [0u32; 16];
    s[0] = 0x61707865;
    s[1] = 0x3320646e;
    s[2] = 0x79622d32;
    s[3] = 0x6b206574;
    let mut i: usize = 0;
    while i < 8
        invariant
            i <= 8,
            key@.len() == 32,
            s@[0] == 0x61707865u32,
            s@[1] == 0x3320646eu32,
            s@[2] == 0x79622d32u32,
            s@[3] == 0x6b206574u32,
            forall|j: int| 4 <= j < 4 + i ==> s@[j] == spec_initial(key@, input@)[j],
        decreases 8 - i,
    {
        s[4 + i] = le_u32(key, 4 * i);
        i = i + 1;
    }
    let mut i: usize = 0;
    while i < 4
        invariant
            i <= 4,
            input@.len() == 16,
            forall|j: int| 0 <= j < 12 ==> s@[j] == spec_initial(key@, input@)[j],
            forall|j: int| 12 <= j < 12 + i ==> s@[j] == spec_initial(key@, input@)[j],
        decreases 4 - i,
    {
        s[12 + i] = le_u32(input, 4 * i);
        i = i + 1;
    }
    assert(s@ =~= spec_initial(key@, input@));
    let mut n: usize = 0;
    while n < 10
        invariant
            n <= 10,
            s@ == spec_rounds(spec_initial(key@, input@), n as nat),
        decreases 10 - n,
    {
        double_round(&mut s);
        n = n + 1;
    }
    let mut out: [u8; 32] = [0u8; 32];
    let mut i: usize = 0;
    while i < 32
        invariant
            i <= 32,
            forall|j: int| 0 <= j < i ==> out@[j] == spec_output(s@)[j],
        decreases 32 - i,
    {
        let w: u32 = if i < 16 {
            s[i / 4]
        } else {
            s[12 + (i - 16) / 4]
        };
        out[i] = word_byte(w, (i % 4) as u32);
        i = i + 1;
    }
    assert(out@ =~= spec_output(s@));
    out
}

} // verus!
