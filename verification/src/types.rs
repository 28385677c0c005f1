use vstd::prelude::*;
use vstd::arithmetic::div_mod::lemma_fundamental_div_mod;
use crate::trits::{Trits, trits_wf};

verus! {

// ---------------------------------------------------------------------------
// Wire-level value types.  Construction validates nothing beyond type-level
// invariants; checks are deferred to the operation that serializes a value.
// ---------------------------------------------------------------------------

/// A signed integer encoded in exactly 3 trits; range `-13 ..= 13`.
#[derive(Clone, Copy, Debug, PartialEq, Eq, Structural)]
pub struct Trint3(pub i8);

impl Trint3 {
    pub open spec fn wf(&self) -> bool {
        -13 <= self.0 <= 13
    }
}

/// A non-negative integer with variable-width trinary encoding.
#[derive(Clone, Copy, Debug, PartialEq, Eq, Structural)]
pub struct Size(pub usize);

/// A variable-length trit sequence; its length (a multiple of 3) is encoded
/// on the wire before the content.
pub struct Trytes(pub Trits);

impl View for Trytes {
    type V = Seq<u8>;

    open spec fn view(&self) -> Seq<u8> {
        self.0@
    }
}

impl Trytes {
    pub open spec fn wf(&self) -> bool {
        self.0.wf()
    }
}

/// A fixed-length trit sequence; the length (a multiple of 3) is known from
/// the surrounding layout, so no prefix is emitted.
pub struct NTrytes(pub Trits);

impl View for NTrytes {
    type V = Seq<u8>;

    open spec fn view(&self) -> Seq<u8> {
        self.0@
    }
}

impl NTrytes {
    pub open spec fn wf(&self) -> bool {
        self.0.wf()
    }
}

/// A placeholder for an authentication tag of the declared trit length.
#[derive(Clone, Copy, Debug, PartialEq, Eq, Structural)]
pub struct Mac(pub usize);

/// A value available to the computation but never placed on the wire.
pub struct External<T>(pub T);

/// Marker: the signed hash was already folded into sponge state; only the
/// detachable signature trits are produced or consumed.
#[derive(Clone, Copy, Debug, PartialEq, Eq, Structural)]
pub struct MssHashSig;

// ---------------------------------------------------------------------------
// Trinary encodings.
// ---------------------------------------------------------------------------

/// `27^d`.
pub open spec fn pow27(d: nat) -> nat
    decreases d,
{
    if d == 0 {
        1
    } else {
        27 * pow27((d - 1) as nat)
    }
}

/// The number of trytes in the variable-width encoding of `n`: the least `d`
/// with `n < 27^d`.
pub open spec fn size_trytes(n: nat) -> nat
    decreases n,
{
    if n == 0 {
        0
    } else {
        1 + size_trytes(n / 27)
    }
}

/// The exact trit length of the wire encoding of a [`Size`] of value `n`:
/// one tryte holding the digit count, then that many trytes of digits.
pub open spec fn sizeof_sizet(n: nat) -> nat {
    3 + 3 * size_trytes(n)
}

/// One tryte: three little-endian base-3 digits of `k` (for `k < 27`).
pub open spec fn enc_tryte(k: nat) -> Seq<u8> {
    seq![(k % 3) as u8, ((k / 3) % 3) as u8, ((k / 3) / 3) as u8]
}

/// The value of a three-trit group.
pub open spec fn tryte_val(s: Seq<u8>) -> nat {
    (s[0] + 3 * s[1] + 9 * s[2]) as nat
}

/// `d` trytes of little-endian base-27 digits of `n`.
pub open spec fn enc_digits(n: nat, d: nat) -> Seq<u8>
    decreases d,
{
    if d == 0 {
        Seq::empty()
    } else {
        enc_tryte(n % 27) + enc_digits(n / 27, (d - 1) as nat)
    }
}

/// The value of `d` little-endian base-27 digit trytes at the front of `s`.
pub open spec fn digits_val(s: Seq<u8>, d: nat) -> nat
    decreases d,
{
    if d == 0 {
        0
    } else {
        tryte_val(s) + 27 * digits_val(s.skip(3), (d - 1) as nat)
    }
}

/// The full wire encoding of a [`Size`] of value `n`.
pub open spec fn enc_size(n: nat) -> Seq<u8> {
    enc_tryte(size_trytes(n)) + enc_digits(n, size_trytes(n))
}

/// The wire encoding of a [`Trint3`]: one tryte of the offset value.
pub open spec fn enc_trint3(v: int) -> Seq<u8> {
    enc_tryte((v + 13) as nat)
}

/// The value a wire tryte decodes to as a [`Trint3`].
pub open spec fn dec_trint3(s: Seq<u8>) -> int {
    tryte_val(s) - 13
}

// ---------------------------------------------------------------------------
// Facts about the encodings.
// ---------------------------------------------------------------------------

pub proof fn lemma_enc_tryte(k: nat)
    requires
        k < 27,
    ensures
        enc_tryte(k).len() == 3,
        trits_wf(enc_tryte(k)),
        tryte_val(enc_tryte(k)) == k,
{
    lemma_fundamental_div_mod(k as int, 3);
    lemma_fundamental_div_mod((k / 3) as int, 3);
}

pub proof fn lemma_enc_digits(n: nat, d: nat)
    requires
        n < pow27(d),
    ensures
        enc_digits(n, d).len() == 3 * d,
        trits_wf(enc_digits(n, d)),
        digits_val(enc_digits(n, d), d) == n,
    decreases d,
{
    if d == 0 {
    } else {
        lemma_fundamental_div_mod(n as int, 27);
        assert(n % 27 < 27);
        assert(n / 27 < pow27((d - 1) as nat)) by {
            assert(n < 27 * pow27((d - 1) as nat));
        };
        lemma_enc_tryte(n % 27);
        lemma_enc_digits(n / 27, (d - 1) as nat);
        let e = enc_digits(n, d);
        assert(e == enc_tryte(n % 27) + enc_digits(n / 27, (d - 1) as nat));
        assert(e.skip(3) =~= enc_digits(n / 27, (d - 1) as nat));
        assert(e[0] == enc_tryte(n % 27)[0]);
        assert(e[1] == enc_tryte(n % 27)[1]);
        assert(e[2] == enc_tryte(n % 27)[2]);
        assert(tryte_val(e) == n % 27) by {
            lemma_enc_tryte(n % 27);
        };
    }
}

/// Every `n` is below `27^(size_trytes(n))`, and the digit count is the
/// least such exponent.
pub proof fn lemma_size_trytes(n: nat)
    ensures
        n < pow27(size_trytes(n)),
        n > 0 ==> pow27((size_trytes(n) - 1) as nat) <= n,
    decreases n,
{
    if n == 0 {
    } else {
        lemma_fundamental_div_mod(n as int, 27);
        lemma_size_trytes(n / 27);
    }
}

/// The size encoding is monotone: a larger value never takes fewer trits.
pub proof fn lemma_size_trytes_monotone(a: nat, b: nat)
    requires
        a <= b,
    ensures
        size_trytes(a) <= size_trytes(b),
        sizeof_sizet(a) <= sizeof_sizet(b),
    decreases b,
{
    if a == 0 {
    } else {
        lemma_size_trytes_monotone(a / 27, b / 27);
    }
}

/// Powers of 27 never shrink as the exponent grows.
pub proof fn lemma_pow27_le(a: nat, b: nat)
    requires
        a <= b,
    ensures
        pow27(a) <= pow27(b),
    decreases b,
{
    if a < b {
        lemma_pow27_le(a, (b - 1) as nat);
    }
}

/// Any value below `27^d` needs at most `d` digit trytes.
pub proof fn lemma_size_trytes_le(n: nat, d: nat)
    requires
        n < pow27(d),
    ensures
        size_trytes(n) <= d,
    decreases d,
{
    if n == 0 {
    } else {
        lemma_fundamental_div_mod(n as int, 27);
        assert(n / 27 < pow27((d - 1) as nat)) by {
            assert(n < 27 * pow27((d - 1) as nat));
        };
        lemma_size_trytes_le(n / 27, (d - 1) as nat);
    }
}

/// A machine word never needs more than 14 digit trytes.
pub proof fn lemma_size_trytes_fits(n: nat)
    requires
        n <= 0xffff_ffff_ffff_ffff,
    ensures
        size_trytes(n) <= 14,
{
    reveal_with_fuel(pow27, 16);
    assert(pow27(14) > 0xffff_ffff_ffff_ffff);
    lemma_size_trytes_le(n, 14);
}

pub proof fn lemma_enc_size(n: nat)
    requires
        n <= 0xffff_ffff_ffff_ffff,
    ensures
        enc_size(n).len() == sizeof_sizet(n),
        trits_wf(enc_size(n)),
{
    lemma_size_trytes_fits(n);
    lemma_size_trytes(n);
    lemma_enc_tryte(size_trytes(n));
    lemma_enc_digits(n, size_trytes(n));
}

pub proof fn lemma_enc_trint3(v: int)
    requires
        -13 <= v <= 13,
    ensures
        enc_trint3(v).len() == 3,
        trits_wf(enc_trint3(v)),
        dec_trint3(enc_trint3(v)) == v,
{
    lemma_enc_tryte((v + 13) as nat);
}

// ---------------------------------------------------------------------------
// Exec encoders, tied to the spec-level encodings.
// ---------------------------------------------------------------------------

/// Appends the tryte encoding of `k` to `buf`.
pub fn push_tryte(buf: &mut Vec<u8>, k: u8)
    requires
        k < 27,
    ensures
        final(buf)@ == old(buf)@ + enc_tryte(k as nat),
{
    buf.push(k % 3);
    buf.push((k / 3) % 3);
    buf.push((k / 3) / 3);
    proof {
        assert(final(buf)@ =~= old(buf)@ + enc_tryte(k as nat));
    }
}

/// The value of the three trits `a`, `b`, `c` read as one tryte.
pub fn tryte_of(a: u8, b: u8, c: u8) -> (k: u8)
    requires
        a < 3,
        b < 3,
        c < 3,
    ensures
        k == tryte_val(seq![a, b, c]),
        k < 27,
{
    a + 3 * b + 9 * c
}

/// The number of digit trytes in the encoding of `n`.
pub fn size_trytes_exec(n: usize) -> (d: usize)
    ensures
        d == size_trytes(n as nat),
        d <= 14,
{
    proof {
        lemma_size_trytes_fits(n as nat);
    }
    let mut m: usize = n;
    let mut d: usize = 0;
    while m > 0
        invariant
            size_trytes(n as nat) == d + size_trytes(m as nat),
            d <= size_trytes(n as nat),
            size_trytes(n as nat) <= 14,
        decreases m,
    {
        m = m / 27;
        d = d + 1;
    }
    d
}

/// Appends the full size encoding of `n` to `buf`.
pub fn push_size(buf: &mut Vec<u8>, n: usize)
    ensures
        final(buf)@ == old(buf)@ + enc_size(n as nat),
{
    let d = size_trytes_exec(n);
    push_tryte(buf, d as u8);
    let ghost dd = size_trytes(n as nat);
    let mut m: usize = n;
    let mut i: usize = 0;
    while i < d
        invariant
            i <= d,
            d == dd,
            buf@ + enc_digits(m as nat, (dd - i) as nat) == old(buf)@ + enc_size(n as nat),
        decreases d - i,
    {
        push_tryte(buf, (m % 27) as u8);
        proof {
            assert(enc_digits(m as nat, (dd - i) as nat) == enc_tryte((m as nat) % 27)
                + enc_digits((m as nat) / 27, (dd - i - 1) as nat));
            assert(buf@ + enc_tryte((m as nat) % 27) + enc_digits((m as nat) / 27, (dd - i - 1) as nat)
                =~= buf@ + (enc_tryte((m as nat) % 27) + enc_digits((m as nat) / 27, (dd - i - 1) as nat)));
        }
        m = m / 27;
        i = i + 1;
    }
    proof {
        assert(buf@ + enc_digits(m as nat, 0) =~= buf@);
    }
}

/// Appends the three-trit encoding of `v` to `buf`.
pub fn push_trint3(buf: &mut Vec<u8>, v: i8)
    requires
        -13 <= v <= 13,
    ensures
        final(buf)@ == old(buf)@ + enc_trint3(v as int),
{
    push_tryte(buf, (v + 13) as u8);
}

} // verus!
