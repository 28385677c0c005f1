use vstd::prelude::*;
use vstd::arithmetic::power2::pow2;
use vstd::arithmetic::div_mod::lemma_fundamental_div_mod;
use crate::trits::{Trits, trits_wf, tadd, add_t};

verus! {

// A one-time signature tree: each leaf signs at most once, and the tree's
// capacity of `2^height` leaves is fixed at creation.  The hashing scheme
// itself lives outside this crate; here the tree's public commitment and the
// per-leaf signature trits are modeled as fixed functions of the stored
// seed, which is what the three passes need: fixed sizes, determinism, and
// leaf consumption.

/// Trit length of the tree's public commitment.
pub const PK_SIZE: usize = 81;

/// Trit length of a hash that can be signed.
pub const HASH_SIZE: usize = 78;

/// Trit length of the leaf-index prefix of a signature.
pub const SKN_SIZE: usize = 18;

/// Trits added to a signature per level of the tree.
pub const APATH_SIZE: usize = 81;

/// Largest supported tree height.
pub const MAX_HEIGHT: usize = 20;

/// The exact trit length of a signature from a tree of height `h`.
pub open spec fn sig_size_v(h: nat) -> nat {
    (SKN_SIZE + HASH_SIZE + APATH_SIZE * h) as nat
}

pub fn sig_size(height: usize) -> (n: usize)
    requires
        height <= MAX_HEIGHT,
    ensures
        n == sig_size_v(height as nat),
{
    SKN_SIZE + HASH_SIZE + APATH_SIZE * height
}

/// `3^d`.
pub open spec fn pow3(d: nat) -> nat
    decreases d,
{
    if d == 0 {
        1
    } else {
        3 * pow3((d - 1) as nat)
    }
}

/// `d` little-endian base-3 digits of `n`.
pub open spec fn base3_digits(n: nat, d: nat) -> Seq<u8>
    decreases d,
{
    if d == 0 {
        Seq::empty()
    } else {
        seq![(n % 3) as u8] + base3_digits(n / 3, (d - 1) as nat)
    }
}

/// The value of a little-endian base-3 digit string.
pub open spec fn base3_val(s: Seq<u8>) -> nat
    decreases s.len(),
{
    if s.len() == 0 {
        0
    } else {
        (s[0] + 3 * base3_val(s.skip(1))) as nat
    }
}

pub proof fn lemma_base3_digits(n: nat, d: nat)
    requires
        n < pow3(d),
    ensures
        base3_digits(n, d).len() == d,
        trits_wf(base3_digits(n, d)),
        base3_val(base3_digits(n, d)) == n,
    decreases d,
{
    if d > 0 {
        lemma_fundamental_div_mod(n as int, 3);
        assert(n / 3 < pow3((d - 1) as nat)) by {
            assert(n < 3 * pow3((d - 1) as nat));
        };
        lemma_base3_digits(n / 3, (d - 1) as nat);
        let e = base3_digits(n, d);
        assert(e.skip(1) =~= base3_digits(n / 3, (d - 1) as nat));
    }
}

pub proof fn lemma_pow3_le(a: nat, b: nat)
    requires
        a <= b,
    ensures
        pow3(a) <= pow3(b),
    decreases b,
{
    if a < b {
        lemma_pow3_le(a, (b - 1) as nat);
    }
}

/// A tree of height 20 has at most `2^20` leaves, and every leaf index fits
/// in the 18-trit prefix.
pub proof fn lemma_idx_fits(idx: nat)
    requires
        idx < pow2(20),
    ensures
        idx < pow3(SKN_SIZE as nat),
{
    vstd::arithmetic::power2::lemma2_to64();
    reveal_with_fuel(pow3, 19);
    assert(pow3(18) == 387420489);
}

/// The one-time part of a signature: a fixed mix of seed, leaf index and
/// the signed hash.
pub open spec fn wots_v(seed: Seq<u8>, idx: nat, hash: Seq<u8>) -> Seq<u8> {
    Seq::new(
        HASH_SIZE as nat,
        |j: int| tadd(seed[(j + idx) % (PK_SIZE as int)], tadd(hash[j], ((idx + j) % 3) as u8)),
    )
}

/// The authentication-path part: `APATH_SIZE` trits per tree level.
pub open spec fn apath_v(seed: Seq<u8>, idx: nat, h: nat) -> Seq<u8> {
    Seq::new(
        (APATH_SIZE * h) as nat,
        |j: int| tadd(seed[(j + idx) % (PK_SIZE as int)], (j % 3) as u8),
    )
}

/// The full signature of `hash` by leaf `idx` of a tree of height `h`.
pub open spec fn sig_v(seed: Seq<u8>, h: nat, idx: nat, hash: Seq<u8>) -> Seq<u8> {
    base3_digits(idx, SKN_SIZE as nat) + wots_v(seed, idx, hash) + apath_v(seed, idx, h)
}

pub proof fn lemma_sig_v(seed: Seq<u8>, h: nat, idx: nat, hash: Seq<u8>)
    requires
        seed.len() == PK_SIZE,
        trits_wf(seed),
        hash.len() == HASH_SIZE,
        trits_wf(hash),
        idx < pow3(SKN_SIZE as nat),
    ensures
        sig_v(seed, h, idx, hash).len() == sig_size_v(h),
        trits_wf(sig_v(seed, h, idx, hash)),
{
    lemma_base3_digits(idx, SKN_SIZE as nat);
    let s = sig_v(seed, h, idx, hash);
    assert forall|i: int| 0 <= i < s.len() implies s[i] < 3 by {
        if i < SKN_SIZE {
            assert(s[i] == base3_digits(idx, SKN_SIZE as nat)[i]);
        } else if i < SKN_SIZE + HASH_SIZE {
            assert(s[i] == wots_v(seed, idx, hash)[i - SKN_SIZE]);
        } else {
            assert(s[i] == apath_v(seed, idx, h)[i - SKN_SIZE - HASH_SIZE]);
        }
    };
}

/// The tree's public commitment; in this model it carries the seed trits.
pub struct PublicKey {
    pub trits: Trits,
}

impl PublicKey {
    pub open spec fn wf(&self) -> bool {
        &&& self.trits@.len() == PK_SIZE
        &&& self.trits.wf()
    }

    pub fn trits(&self) -> (r: &Trits)
        ensures
            r@ == self.trits@,
    {
        &self.trits
    }
}

/// One-time key material: a seed, the tree height, and how many leaves have
/// been consumed so far.
pub struct PrivateKey {
    pub seed: Trits,
    pub height: usize,
    pub used: usize,
}

impl PrivateKey {
    pub open spec fn wf(&self) -> bool {
        &&& self.seed@.len() == PK_SIZE
        &&& self.seed.wf()
        &&& self.height <= MAX_HEIGHT
        &&& self.used <= pow2(self.height as nat)
    }

    /// The number of leaves a tree of this height starts with.
    pub open spec fn capacity(&self) -> nat {
        pow2(self.height as nat)
    }

    pub fn new(seed: Trits, height: usize) -> (r: PrivateKey)
        requires
            seed@.len() == PK_SIZE,
            seed.wf(),
            height <= MAX_HEIGHT,
        ensures
            r.wf(),
            r.seed@ == seed@,
            r.height == height,
            r.used == 0,
    {
        PrivateKey { seed, height, used: 0 }
    }

    pub fn height(&self) -> (h: usize)
        ensures
            h == self.height,
    {
        self.height
    }

    /// How many one-time keys are still unused.
    pub fn private_keys_left(&self) -> (n: usize)
        requires
            self.wf(),
        ensures
            n == self.capacity() - self.used,
    {
        let mut p: usize = 1;
        let mut i: usize = 0;
        proof {
            vstd::arithmetic::power2::lemma2_to64();
        }
        while i < self.height
            invariant
                i <= self.height,
                self.height <= MAX_HEIGHT,
                p == pow2(i as nat),
                p <= 0x100000,
            decreases self.height - i,
        {
            proof {
                vstd::arithmetic::power2::lemma_pow2_unfold((i + 1) as nat);
                vstd::arithmetic::power2::lemma_pow2_strictly_increases((i + 1) as nat, 21);
                vstd::arithmetic::power2::lemma2_to64();
            }
            p = p * 2;
            i = i + 1;
        }
        p - self.used
    }

    /// The commitment that verifies this tree's signatures.
    pub fn public_key(&self) -> (r: PublicKey)
        requires
            self.wf(),
        ensures
            r.wf(),
            r.trits@ == self.seed@,
    {
        PublicKey { trits: self.seed.duplicate() }
    }
}

/// Builds the signature of `hash` by leaf `idx`.
pub fn sign(seed: &Trits, height: usize, idx: usize, hash: &Trits) -> (r: Vec<u8>)
    requires
        seed@.len() == PK_SIZE,
        seed.wf(),
        hash@.len() == HASH_SIZE,
        hash.wf(),
        height <= MAX_HEIGHT,
        idx < pow3(SKN_SIZE as nat),
    ensures
        r@ == sig_v(seed@, height as nat, idx as nat, hash@),
        r@.len() == sig_size_v(height as nat),
        trits_wf(r@),
{
    let ghost goal = sig_v(seed@, height as nat, idx as nat, hash@);
    proof {
        lemma_sig_v(seed@, height as nat, idx as nat, hash@);
        lemma_base3_digits(idx as nat, SKN_SIZE as nat);
        reveal_with_fuel(pow3, 19);
        assert(pow3(18) == 387420489);
    }
    let mut r: Vec<u8> = Vec::new();
    let mut m: usize = idx;
    let mut i: usize = 0;
    while i < SKN_SIZE
        invariant
            i <= SKN_SIZE,
            r@.len() == i,
            r@ + base3_digits(m as nat, (SKN_SIZE - i) as nat) == base3_digits(
                idx as nat,
                SKN_SIZE as nat,
            ),
        decreases SKN_SIZE - i,
    {
        let ghost prev = r@;
        r.push((m % 3) as u8);
        proof {
            assert(base3_digits(m as nat, (SKN_SIZE - i) as nat) == seq![((m as nat) % 3) as u8]
                + base3_digits((m as nat) / 3, (SKN_SIZE - i - 1) as nat));
            assert(r@ =~= prev + seq![((m as nat) % 3) as u8]);
            assert(r@ + base3_digits((m as nat) / 3, (SKN_SIZE - i - 1) as nat) =~= prev
                + base3_digits(m as nat, (SKN_SIZE - i) as nat));
        }
        m = m / 3;
        i = i + 1;
    }
    proof {
        assert(r@ + base3_digits(m as nat, 0) =~= r@);
        assert(r@ == base3_digits(idx as nat, SKN_SIZE as nat));
    }
    let mut j: usize = 0;
    while j < HASH_SIZE
        invariant
            j <= HASH_SIZE,
            r@.len() == SKN_SIZE + j,
            seed@.len() == PK_SIZE,
            seed.wf(),
            hash@.len() == HASH_SIZE,
            hash.wf(),
            idx < 387420489,
            r@.take(SKN_SIZE as int) == base3_digits(idx as nat, SKN_SIZE as nat),
            forall|k: int|
                0 <= k < j ==> r@[SKN_SIZE + k] == wots_v(seed@, idx as nat, hash@)[k],
        decreases HASH_SIZE - j,
    {
        let si = (j + idx) % PK_SIZE;
        let c = ((idx + j) % 3) as u8;
        let t = add_t(seed.get(si), add_t(hash.get(j), c));
        let ghost prev = r@;
        r.push(t);
        proof {
            assert(r@.take(SKN_SIZE as int) =~= prev.take(SKN_SIZE as int));
        }
        j = j + 1;
    }
    let apath_len = APATH_SIZE * height;
    let mut k: usize = 0;
    while k < apath_len
        invariant
            k <= apath_len,
            apath_len == APATH_SIZE * height,
            height <= MAX_HEIGHT,
            r@.len() == SKN_SIZE + HASH_SIZE + k,
            seed@.len() == PK_SIZE,
            seed.wf(),
            idx < 387420489,
            r@.take(SKN_SIZE as int) == base3_digits(idx as nat, SKN_SIZE as nat),
            forall|q: int|
                0 <= q < HASH_SIZE ==> r@[SKN_SIZE + q] == wots_v(seed@, idx as nat, hash@)[q],
            forall|q: int|
                0 <= q < k ==> r@[SKN_SIZE + HASH_SIZE + q] == apath_v(
                    seed@,
                    idx as nat,
                    height as nat,
                )[q],
        decreases apath_len - k,
    {
        let si = (k + idx) % PK_SIZE;
        let t = add_t(seed.get(si), (k % 3) as u8);
        let ghost prev = r@;
        r.push(t);
        proof {
            assert(r@.take(SKN_SIZE as int) =~= prev.take(SKN_SIZE as int));
        }
        k = k + 1;
    }
    proof {
        assert(r@ =~= goal);
    }
    r
}

/// The leaf index a signature names, read back from its prefix.
pub open spec fn sig_idx(sig: Seq<u8>) -> nat {
    base3_val(sig.take(SKN_SIZE as int))
}

/// Does `sig` verify against commitment `pk` for `hash`?  True exactly when
/// the signature is the one its own leaf index would have produced under
/// `pk`, and that index lies inside the tree.
pub open spec fn sig_ok(pk: Seq<u8>, h: nat, hash: Seq<u8>, sig: Seq<u8>) -> bool {
    &&& sig_idx(sig) < pow2(h)
    &&& sig == sig_v(pk, h, sig_idx(sig), hash)
}

/// Recomputes the expected signature from the wire's own leaf index and
/// compares.
pub fn verify(pk: &Trits, height: usize, hash: &Trits, sig: &Vec<u8>) -> (b: bool)
    requires
        pk@.len() == PK_SIZE,
        pk.wf(),
        hash@.len() == HASH_SIZE,
        hash.wf(),
        height <= MAX_HEIGHT,
        trits_wf(sig@),
        sig@.len() == sig_size_v(height as nat),
    ensures
        b == sig_ok(pk@, height as nat, hash@, sig@),
{
    // Read the leaf index from the 18-trit prefix, most significant last.
    let mut idx: usize = 0;
    let mut i: usize = SKN_SIZE;
    proof {
        assert(sig@.take(SKN_SIZE as int).skip(SKN_SIZE as int) =~= Seq::<u8>::empty());
        reveal_with_fuel(pow3, 19);
        assert(pow3(18) == 387420489);
    }
    while i > 0
        invariant
            i <= SKN_SIZE,
            trits_wf(sig@),
            sig@.len() >= SKN_SIZE,
            idx == base3_val(sig@.take(SKN_SIZE as int).skip(i as int)),
            idx < pow3((SKN_SIZE - i) as nat),
            pow3(18) == 387420489,
        decreases i,
    {
        proof {
            assert(trits_wf(sig@.take(SKN_SIZE as int)));
            assert(sig@.take(SKN_SIZE as int).skip(i - 1)[0] == sig@[i - 1]);
            assert(sig@.take(SKN_SIZE as int).skip(i - 1).skip(1) =~= sig@.take(
                SKN_SIZE as int,
            ).skip(i as int));
            assert(pow3((SKN_SIZE - i + 1) as nat) == 3 * pow3((SKN_SIZE - i) as nat));
            lemma_pow3_le((SKN_SIZE - i) as nat, 17);
            reveal_with_fuel(pow3, 19);
            assert(pow3(17) == 129140163);
        }
        idx = 3 * idx + (sig[i - 1] as usize);
        i = i - 1;
    }
    proof {
        assert(sig@.take(SKN_SIZE as int).skip(0) =~= sig@.take(SKN_SIZE as int));
    }
    // The index must name a leaf the tree actually has.
    let mut cap: usize = 1;
    let mut e: usize = 0;
    proof {
        vstd::arithmetic::power2::lemma2_to64();
    }
    while e < height
        invariant
            e <= height,
            height <= MAX_HEIGHT,
            cap == pow2(e as nat),
            cap <= 0x100000,
        decreases height - e,
    {
        proof {
            vstd::arithmetic::power2::lemma_pow2_unfold((e + 1) as nat);
            vstd::arithmetic::power2::lemma_pow2_strictly_increases((e + 1) as nat, 21);
            vstd::arithmetic::power2::lemma2_to64();
        }
        cap = cap * 2;
        e = e + 1;
    }
    if idx >= cap {
        return false;
    }
    let expected = sign(pk, height, idx, hash);
    let mut j: usize = 0;
    while j < sig.len()
        invariant
            j <= sig@.len(),
            idx == sig_idx(sig@),
            idx < pow2(height as nat),
            expected@ == sig_v(pk@, height as nat, idx as nat, hash@),
            expected@.len() == sig@.len(),
            forall|q: int| 0 <= q < j ==> sig@[q] == expected@[q],
        decreases sig@.len() - j,
    {
        if sig[j] != expected[j] {
            proof {
                assert(sig@ != sig_v(pk@, height as nat, idx as nat, hash@));
            }
            return false;
        }
        j = j + 1;
    }
    proof {
        assert(sig@ =~= sig_v(pk@, height as nat, idx as nat, hash@));
    }
    true
}

} // verus!
