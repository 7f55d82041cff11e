//! Little-endian integer encoding over byte sequences.
//!
//! The model is arithmetic: a byte sequence stands for the natural number
//! `s[0] + 256 * s[1] + 256^2 * s[2] + ...`, and a signed 128-bit integer is
//! carried in two's complement.
use vstd::arithmetic::div_mod::*;
use vstd::arithmetic::power::pow;
use vstd::prelude::*;

verus! {

/// `256^n`: the number of distinct values that `n` bytes can hold.
pub open spec fn pow256(n: nat) -> nat
    decreases n,
{
    if n == 0 {
        1
    } else {
        256 * pow256((n - 1) as nat)
    }
}

/// The natural number that the bytes `s` encode, least significant byte first.
pub open spec fn le_value(s: Seq<u8>) -> nat
    decreases s.len(),
{
    if s.len() == 0 {
        0
    } else {
        s[0] as nat + 256 * le_value(s.drop_first())
    }
}

/// The `n`-byte little-endian encoding of `v` (of `v % 256^n` where `v` does not fit).
pub open spec fn le_bytes(v: nat, n: nat) -> Seq<u8>
    decreases n,
{
    if n == 0 {
        Seq::empty()
    } else {
        seq![(v % 256) as u8] + le_bytes(v / 256, (n - 1) as nat)
    }
}

/// The value of the `n` bytes of `s` that start at offset `off`.
pub open spec fn le_field(s: Seq<u8>, off: int, n: int) -> nat {
    le_value(s.subrange(off, off + n))
}

/// `s` with the bytes `t` written over it from offset `off` on.
pub open spec fn splice(s: Seq<u8>, off: int, t: Seq<u8>) -> Seq<u8> {
    s.subrange(0, off) + t + s.subrange(off + t.len(), s.len() as int)
}

/// `2^127`.
pub open spec fn half_range128() -> nat {
    0x8000_0000_0000_0000_0000_0000_0000_0000nat
}

/// `2^128`.
pub open spec fn range128() -> nat {
    0x1_0000_0000_0000_0000_0000_0000_0000_0000nat
}

/// The two's-complement bit pattern of `v`, read as an unsigned number.
pub open spec fn twos128(v: i128) -> nat {
    if v < 0 {
        (v + range128()) as nat
    } else {
        v as nat
    }
}

/// The signed value whose two's-complement bit pattern is `u` (for `u < 2^128`).
pub open spec fn from_twos128(u: nat) -> i128 {
    if u < half_range128() {
        u as i128
    } else {
        (u - range128()) as i128
    }
}

/// The encoding of `v` has exactly `n` bytes.
pub broadcast proof fn lemma_le_bytes_len(v: nat, n: nat)
    ensures
        #[trigger] le_bytes(v, n).len() == n,
    decreases n,
{
    if n > 0 {
        lemma_le_bytes_len(v / 256, (n - 1) as nat);
    }
}

/// The powers of 256 that the wire format uses.
pub proof fn lemma_pow256_values()
    ensures
        pow256(0) == 1,
        pow256(1) == 0x100,
        pow256(2) == 0x1_0000,
        pow256(4) == 0x1_0000_0000,
        pow256(8) == 0x1_0000_0000_0000_0000,
        pow256(15) == 0x100_0000_0000_0000_0000_0000_0000_0000,
        pow256(16) == range128(),
{
    reveal_with_fuel(pow256, 17);
}

/// `256^n` grows with `n`.
pub proof fn lemma_pow256_mono(a: nat, b: nat)
    requires
        a <= b,
    ensures
        1 <= pow256(a) <= pow256(b),
    decreases b,
{
    if a < b {
        lemma_pow256_mono(a, (b - 1) as nat);
    } else if a > 0 {
        lemma_pow256_mono((a - 1) as nat, (a - 1) as nat);
    }
}

/// `n` bytes encode a value below `256^n`.
pub proof fn lemma_le_value_bound(s: Seq<u8>)
    ensures
        le_value(s) < pow256(s.len()),
    decreases s.len(),
{
    if s.len() > 0 {
        lemma_le_value_bound(s.drop_first());
    }
}

/// Decoding the encoding of a value that fits gives the value back.
pub proof fn lemma_le_value_of_bytes(v: nat, n: nat)
    requires
        v < pow256(n),
    ensures
        le_value(le_bytes(v, n)) == v,
    decreases n,
{
    broadcast use lemma_le_bytes_len;

    if n > 0 {
        let p = pow256((n - 1) as nat);
        assert(v / 256 < p) by {
            lemma_div_256_below(v as int, p as int);
        }
        lemma_le_value_of_bytes(v / 256, (n - 1) as nat);
        let s = le_bytes(v, n);
        assert(s.drop_first() =~= le_bytes(v / 256, (n - 1) as nat));
        lemma_fundamental_div_mod(v as int, 256);
    }
}

/// A value below `256 * p` divided by 256 is below `p`.
proof fn lemma_div_256_below(v: int, p: int)
    requires
        0 <= v < 256 * p,
    ensures
        v / 256 < p,
{
    lemma_fundamental_div_mod(v, 256);
}

/// Encoding the value of a byte sequence gives the sequence back.
pub proof fn lemma_le_bytes_of_value(s: Seq<u8>)
    ensures
        le_bytes(le_value(s), s.len()) == s,
    decreases s.len(),
{
    broadcast use lemma_le_bytes_len;

    if s.len() > 0 {
        let v = le_value(s);
        let rest = le_value(s.drop_first());
        lemma_fundamental_div_mod_converse(v as int, 256, rest as int, s[0] as int);
        lemma_le_bytes_of_value(s.drop_first());
        assert(le_bytes(v, s.len()) =~= s);
    }
}

/// A signed value survives the trip through its two's-complement pattern.
pub proof fn lemma_twos128_roundtrip(v: i128)
    ensures
        twos128(v) < range128(),
        from_twos128(twos128(v)) == v,
{
}

/// A 128-bit pattern survives the trip through its signed value.
pub proof fn lemma_from_twos128_roundtrip(u: nat)
    requires
        u < range128(),
    ensures
        twos128(from_twos128(u)) == u,
{
}

/// `pow256` is the power of 256.
pub proof fn lemma_pow256_is_pow(n: nat)
    ensures
        pow256(n) == pow(256, n),
    decreases n,
{
    reveal(pow);
    if n > 0 {
        lemma_pow256_is_pow((n - 1) as nat);
    }
}

/// Byte `i` of the encoding of `v` is digit `i` of `v` in base 256: the
/// encoding puts the least significant byte first.
pub proof fn lemma_le_bytes_digits(v: nat, n: nat, i: nat)
    requires
        i < n,
    ensures
        le_bytes(v, n)[i as int] as int == (v as int / pow(256, i)) % 256,
    decreases i,
{
    broadcast use lemma_le_bytes_len;

    reveal(pow);
    if i == 0 {
        assert(v as int / 1 == v as int);
    } else {
        lemma_le_bytes_digits(v / 256, (n - 1) as nat, (i - 1) as nat);
        assert(le_bytes(v, n)[i as int] == le_bytes(v / 256, (n - 1) as nat)[i - 1]);
        lemma_pow256_is_pow((i - 1) as nat);
        lemma_pow256_mono(0, (i - 1) as nat);
        lemma_div_denominator(v as int, 256, pow(256, (i - 1) as nat));
    }
}

/// `twos128(v)` is the one number in `[0, 2^128)` that is congruent to `v`
/// modulo `2^128`.
pub proof fn lemma_twos128_congruent(v: i128)
    ensures
        0 <= twos128(v) < 0x1_0000_0000_0000_0000_0000_0000_0000_0000int,
        (twos128(v) - v) % 0x1_0000_0000_0000_0000_0000_0000_0000_0000int == 0,
{
    if v < 0 {
        assert((twos128(v) - v) == 0x1_0000_0000_0000_0000_0000_0000_0000_0000int);
    } else {
        assert(twos128(v) - v == 0);
    }
}

/// `from_twos128(u)` is the one `i128` that is congruent to `u` modulo `2^128`.
pub proof fn lemma_from_twos128_congruent(u: nat)
    requires
        u < 0x1_0000_0000_0000_0000_0000_0000_0000_0000int,
    ensures
        (u - from_twos128(u)) % 0x1_0000_0000_0000_0000_0000_0000_0000_0000int == 0,
{
    if u >= half_range128() {
        assert(u - from_twos128(u) == 0x1_0000_0000_0000_0000_0000_0000_0000_0000int);
    } else {
        assert(u - from_twos128(u) == 0);
    }
}

/// Reads the little-endian number held in `data[off..off + n]`.
pub fn read_le(data: &[u8], off: usize, n: usize) -> (r: u128)
    requires
        n <= 16,
        off + n <= data@.len(),
    ensures
        r == le_field(data@, off as int, n as int),
{
    proof {
        lemma_pow256_values();
    }
    let len = data.len();
    let mut acc: u128 = 0;
    let mut i: usize = n;
    while i > 0
        invariant
            i <= n <= 16,
            off + n <= data@.len(),
            len == data@.len(),
            acc == le_value(data@.subrange(off + i, off + n)),
            acc < pow256((n - i) as nat),
            pow256(15) == 0x100_0000_0000_0000_0000_0000_0000_0000,
        decreases i,
    {
        let b = data[off + i - 1];
        proof {
            let tail = data@.subrange(off + i, off + n);
            let s = data@.subrange(off + i - 1, off + n);
            assert(s.drop_first() =~= tail);
            lemma_pow256_mono((n - i) as nat, 15);
        }
        acc = acc * 256 + b as u128;
        i = i - 1;
    }
    acc
}

/// Writes the `n`-byte little-endian encoding of `v` into `buf[off..off + n]`,
/// leaving every other byte as it was.
pub fn write_le(buf: &mut [u8], off: usize, n: usize, v: u128)
    requires
        n <= 16,
        off + n <= old(buf)@.len(),
    ensures
        final(buf)@ == splice(old(buf)@, off as int, le_bytes(v as nat, n as nat)),
{
    broadcast use lemma_le_bytes_len;

    let ghost enc = le_bytes(v as nat, n as nat);
    assert(enc.len() == n);
    let len = buf.len();
    let mut x: u128 = v;
    let mut i: usize = 0;
    while i < n
        invariant
            i <= n <= 16,
            off + n <= old(buf)@.len(),
            buf@.len() == old(buf)@.len(),
            len == old(buf)@.len(),
            enc == le_bytes(v as nat, n as nat),
            enc.len() == n,
            forall|j: int| 0 <= j < off ==> buf@[j] == old(buf)@[j],
            forall|j: int| off + n <= j < buf@.len() ==> buf@[j] == old(buf)@[j],
            forall|j: int| 0 <= j < i ==> buf@[off + j] == enc[j],
            enc.subrange(i as int, n as int) == le_bytes(x as nat, (n - i) as nat),
        decreases n - i,
    {
        proof {
            let rest = le_bytes(x as nat, (n - i) as nat);
            assert(rest.len() == n - i);
            assert(rest[0] == (x % 256) as u8);
            assert(enc[i as int] == enc.subrange(i as int, n as int)[0]);
            assert(enc.subrange(i + 1, n as int) =~= rest.drop_first());
            assert(rest.drop_first() =~= le_bytes((x / 256) as nat, (n - i - 1) as nat));
        }
        buf[off + i] = (x % 256) as u8;
        x = x / 256;
        i = i + 1;
    }
    assert(buf@ =~= old(buf)@.subrange(0, off as int) + enc + old(buf)@.subrange(
        off + n,
        old(buf)@.len() as int,
    ));
}

/// Writing `t` just after a prefix `p` that is already in place extends the prefix.
pub proof fn lemma_splice_after_prefix(p: Seq<u8>, rest: Seq<u8>, t: Seq<u8>)
    requires
        t.len() <= rest.len(),
    ensures
        splice(p + rest, p.len() as int, t) == (p + t) + rest.subrange(
            t.len() as int,
            rest.len() as int,
        ),
{
    assert(splice(p + rest, p.len() as int, t) =~= (p + t) + rest.subrange(
        t.len() as int,
        rest.len() as int,
    ));
}

/// Reads the little-endian `u16` at `data[off..off + 2]`.
pub fn read_u16_le(data: &[u8], off: usize) -> (r: u16)
    requires
        off + 2 <= data@.len(),
    ensures
        r as nat == le_field(data@, off as int, 2),
{
    let v = read_le(data, off, 2);
    proof {
        lemma_le_value_bound(data@.subrange(off as int, off + 2));
        lemma_pow256_values();
    }
    v as u16
}

/// Reads the little-endian `u32` at `data[off..off + 4]`.
pub fn read_u32_le(data: &[u8], off: usize) -> (r: u32)
    requires
        off + 4 <= data@.len(),
    ensures
        r as nat == le_field(data@, off as int, 4),
{
    let v = read_le(data, off, 4);
    proof {
        lemma_le_value_bound(data@.subrange(off as int, off + 4));
        lemma_pow256_values();
    }
    v as u32
}

/// Reads the little-endian `u64` at `data[off..off + 8]`.
pub fn read_u64_le(data: &[u8], off: usize) -> (r: u64)
    requires
        off + 8 <= data@.len(),
    ensures
        r as nat == le_field(data@, off as int, 8),
{
    let v = read_le(data, off, 8);
    proof {
        lemma_le_value_bound(data@.subrange(off as int, off + 8));
        lemma_pow256_values();
    }
    v as u64
}

/// Reads the little-endian two's-complement `i128` at `data[off..off + 16]`.
pub fn read_i128_le(data: &[u8], off: usize) -> (r: i128)
    requires
        off + 16 <= data@.len(),
    ensures
        r == from_twos128(le_field(data@, off as int, 16)),
{
    let v = read_le(data, off, 16);
    i128_from_bits(v)
}

/// Writes `v` as 4 little-endian bytes at `buf[off..off + 4]`.
pub fn write_u32_le(buf: &mut [u8], off: usize, v: u32)
    requires
        off + 4 <= old(buf)@.len(),
    ensures
        final(buf)@ == splice(old(buf)@, off as int, le_bytes(v as nat, 4)),
{
    write_le(buf, off, 4, v as u128);
}

/// Writes `v` as 8 little-endian bytes at `buf[off..off + 8]`.
pub fn write_u64_le(buf: &mut [u8], off: usize, v: u64)
    requires
        off + 8 <= old(buf)@.len(),
    ensures
        final(buf)@ == splice(old(buf)@, off as int, le_bytes(v as nat, 8)),
{
    write_le(buf, off, 8, v as u128);
}

/// Writes `v` in two's complement as 16 little-endian bytes at `buf[off..off + 16]`.
pub fn write_i128_le(buf: &mut [u8], off: usize, v: i128)
    requires
        off + 16 <= old(buf)@.len(),
    ensures
        final(buf)@ == splice(old(buf)@, off as int, le_bytes(twos128(v), 16)),
{
    let bits = i128_to_bits(v);
    write_le(buf, off, 16, bits);
}

/// The two's-complement pattern of `v`.
pub fn i128_to_bits(v: i128) -> (u: u128)
    ensures
        u as nat == twos128(v),
{
    if v >= 0 {
        v as u128
    } else {
        let shifted: i128 = v + i128::MAX + 1;
        (shifted as u128) + 0x8000_0000_0000_0000_0000_0000_0000_0000u128
    }
}

/// The signed value whose two's-complement pattern is `u`.
pub fn i128_from_bits(u: u128) -> (v: i128)
    ensures
        v == from_twos128(u as nat),
{
    if u < 0x8000_0000_0000_0000_0000_0000_0000_0000u128 {
        u as i128
    } else {
        let low: i128 = (u - 0x8000_0000_0000_0000_0000_0000_0000_0000u128) as i128;
        low - i128::MAX - 1
    }
}

} // verus!
