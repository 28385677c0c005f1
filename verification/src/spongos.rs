use vstd::prelude::*;
use crate::trits::{tadd, tsub, trits_wf, add_t, sub_t, lemma_tadd_tsub};

verus! {

/// Trits of sponge state that absorb input and yield output between
/// permutations.
pub const RATE: usize = 81;

/// Total width of the sponge state in trits.
pub const STATE_SIZE: usize = 162;

/// The mathematical state of a sponge: its trits and the cursor inside the
/// rate part.
pub ghost struct SpongosView {
    pub s: Seq<u8>,
    pub pos: nat,
}

pub open spec fn sp_wf(m: SpongosView) -> bool {
    &&& m.s.len() == STATE_SIZE
    &&& trits_wf(m.s)
    &&& m.pos < RATE
}

/// The permutation: every trit is mixed with its right neighbour (cyclically)
/// and a position-dependent constant.
pub open spec fn permute_v(s: Seq<u8>) -> Seq<u8> {
    Seq::new(
        s.len(),
        |i: int| tadd(s[i], tadd(s[if i + 1 == s.len() { 0int } else { i + 1 }], (i % 3) as u8)),
    )
}

/// Writes `x` at the cursor and advances, permuting at the rate boundary.
pub open spec fn sp_put(m: SpongosView, x: u8) -> SpongosView {
    let s1 = m.s.update(m.pos as int, x);
    if m.pos + 1 == RATE {
        SpongosView { s: permute_v(s1), pos: 0 }
    } else {
        SpongosView { s: s1, pos: m.pos + 1 }
    }
}

/// Absorbing one trit adds it into the state trit at the cursor.
pub open spec fn sp_absorb1(m: SpongosView, t: u8) -> SpongosView {
    sp_put(m, tadd(m.s[m.pos as int], t))
}

/// Squeezing one trit reads the state trit at the cursor and clears it.
pub open spec fn sp_squeeze1(m: SpongosView) -> (u8, SpongosView) {
    (m.s[m.pos as int], sp_put(m, 0))
}

/// Encrypting one trit emits cleartext plus keystream and absorbs the
/// cleartext, so masking changes the transcript exactly as absorbing does.
pub open spec fn sp_encrypt1(m: SpongosView, t: u8) -> (u8, SpongosView) {
    (tadd(t, m.s[m.pos as int]), sp_absorb1(m, t))
}

/// Decrypting one trit inverts [`sp_encrypt1`] on the same state.
pub open spec fn sp_decrypt1(m: SpongosView, c: u8) -> (u8, SpongosView) {
    let t = tsub(c, m.s[m.pos as int]);
    (t, sp_absorb1(m, t))
}

pub open spec fn sp_absorb_s(m: SpongosView, ts: Seq<u8>) -> SpongosView
    decreases ts.len(),
{
    if ts.len() == 0 {
        m
    } else {
        sp_absorb_s(sp_absorb1(m, ts[0]), ts.skip(1))
    }
}

pub open spec fn sp_squeeze_s(m: SpongosView, n: nat) -> (Seq<u8>, SpongosView)
    decreases n,
{
    if n == 0 {
        (Seq::empty(), m)
    } else {
        let first = sp_squeeze1(m);
        let rest = sp_squeeze_s(first.1, (n - 1) as nat);
        (seq![first.0] + rest.0, rest.1)
    }
}

pub open spec fn sp_encrypt_s(m: SpongosView, ts: Seq<u8>) -> (Seq<u8>, SpongosView)
    decreases ts.len(),
{
    if ts.len() == 0 {
        (Seq::empty(), m)
    } else {
        let first = sp_encrypt1(m, ts[0]);
        let rest = sp_encrypt_s(first.1, ts.skip(1));
        (seq![first.0] + rest.0, rest.1)
    }
}

pub open spec fn sp_decrypt_s(m: SpongosView, cs: Seq<u8>) -> (Seq<u8>, SpongosView)
    decreases cs.len(),
{
    if cs.len() == 0 {
        (Seq::empty(), m)
    } else {
        let first = sp_decrypt1(m, cs[0]);
        let rest = sp_decrypt_s(first.1, cs.skip(1));
        (seq![first.0] + rest.0, rest.1)
    }
}

/// A commit closes the current permutation block: subsequent output depends
/// on everything absorbed so far.
pub open spec fn sp_commit(m: SpongosView) -> SpongosView {
    if m.pos == 0 {
        m
    } else {
        SpongosView { s: permute_v(m.s), pos: 0 }
    }
}

// ---------------------------------------------------------------------------
// Facts about the transitions.
// ---------------------------------------------------------------------------

pub proof fn lemma_permute_wf(s: Seq<u8>)
    requires
        trits_wf(s),
    ensures
        permute_v(s).len() == s.len(),
        trits_wf(permute_v(s)),
{
    assert forall|i: int| 0 <= i < s.len() implies permute_v(s)[i] < 3 by {
        let j: int = if i + 1 == s.len() { 0int } else { i + 1 };
        assert(s[j] < 3);
    };
}

pub proof fn lemma_put_wf(m: SpongosView, x: u8)
    requires
        sp_wf(m),
        x < 3,
    ensures
        sp_wf(sp_put(m, x)),
{
    let s1 = m.s.update(m.pos as int, x);
    assert(trits_wf(s1));
    lemma_permute_wf(s1);
}

pub proof fn lemma_absorb1_wf(m: SpongosView, t: u8)
    requires
        sp_wf(m),
        t < 3,
    ensures
        sp_wf(sp_absorb1(m, t)),
{
    lemma_put_wf(m, tadd(m.s[m.pos as int], t));
}

pub proof fn lemma_absorb_s_wf(m: SpongosView, ts: Seq<u8>)
    requires
        sp_wf(m),
        trits_wf(ts),
    ensures
        sp_wf(sp_absorb_s(m, ts)),
    decreases ts.len(),
{
    if ts.len() > 0 {
        lemma_absorb1_wf(m, ts[0]);
        assert(trits_wf(ts.skip(1)));
        lemma_absorb_s_wf(sp_absorb1(m, ts[0]), ts.skip(1));
    }
}

pub proof fn lemma_squeeze_s_wf(m: SpongosView, n: nat)
    requires
        sp_wf(m),
    ensures
        sp_squeeze_s(m, n).0.len() == n,
        trits_wf(sp_squeeze_s(m, n).0),
        sp_wf(sp_squeeze_s(m, n).1),
    decreases n,
{
    if n > 0 {
        lemma_put_wf(m, 0);
        lemma_squeeze_s_wf(sp_squeeze1(m).1, (n - 1) as nat);
    }
}

/// Masking evolves the state exactly as absorbing the cleartext does.
pub proof fn lemma_encrypt_s(m: SpongosView, ts: Seq<u8>)
    requires
        sp_wf(m),
        trits_wf(ts),
    ensures
        sp_encrypt_s(m, ts).0.len() == ts.len(),
        trits_wf(sp_encrypt_s(m, ts).0),
        sp_encrypt_s(m, ts).1 == sp_absorb_s(m, ts),
        sp_wf(sp_encrypt_s(m, ts).1),
    decreases ts.len(),
{
    if ts.len() > 0 {
        lemma_absorb1_wf(m, ts[0]);
        assert(trits_wf(ts.skip(1)));
        lemma_encrypt_s(sp_absorb1(m, ts[0]), ts.skip(1));
        lemma_absorb_s_wf(m, ts);
    }
}

/// Decrypting what was encrypted on the same state returns the cleartext
/// and the two states stay in lockstep.
pub proof fn lemma_decrypt_roundtrip(m: SpongosView, ts: Seq<u8>)
    requires
        sp_wf(m),
        trits_wf(ts),
    ensures
        sp_decrypt_s(m, sp_encrypt_s(m, ts).0) == (ts, sp_absorb_s(m, ts)),
    decreases ts.len(),
{
    lemma_encrypt_s(m, ts);
    if ts.len() == 0 {
        assert(sp_decrypt_s(m, sp_encrypt_s(m, ts).0).0 =~= ts);
    } else {
        let t = ts[0];
        let k = m.s[m.pos as int];
        lemma_tadd_tsub(t, k);
        let c = tadd(t, k);
        let m1 = sp_absorb1(m, t);
        lemma_absorb1_wf(m, t);
        assert(trits_wf(ts.skip(1)));
        lemma_decrypt_roundtrip(m1, ts.skip(1));
        let cs = sp_encrypt_s(m, ts).0;
        assert(cs == seq![c] + sp_encrypt_s(m1, ts.skip(1)).0);
        assert(cs[0] == c);
        assert(cs.skip(1) =~= sp_encrypt_s(m1, ts.skip(1)).0);
        assert(sp_decrypt1(m, c).0 == t);
        assert(sp_decrypt_s(m, cs).0 =~= ts) by {
            assert(sp_decrypt_s(m, cs).0 == seq![t] + ts.skip(1));
        };
        assert(sp_decrypt_s(m, cs).1 == sp_absorb_s(m, ts));
    }
}

/// Decrypting is state-lockstep with absorbing its own cleartext output.
pub proof fn lemma_decrypt_s_absorbs(m: SpongosView, cs: Seq<u8>)
    requires
        sp_wf(m),
        trits_wf(cs),
    ensures
        sp_decrypt_s(m, cs).0.len() == cs.len(),
        trits_wf(sp_decrypt_s(m, cs).0),
        sp_decrypt_s(m, cs).1 == sp_absorb_s(m, sp_decrypt_s(m, cs).0),
        sp_wf(sp_decrypt_s(m, cs).1),
    decreases cs.len(),
{
    if cs.len() > 0 {
        let t = tsub(cs[0], m.s[m.pos as int]);
        lemma_tadd_tsub(cs[0], m.s[m.pos as int]);
        lemma_absorb1_wf(m, t);
        assert(trits_wf(cs.skip(1)));
        lemma_decrypt_s_absorbs(sp_absorb1(m, t), cs.skip(1));
        let dec = sp_decrypt_s(m, cs).0;
        assert(dec == seq![t] + sp_decrypt_s(sp_absorb1(m, t), cs.skip(1)).0);
        assert(dec[0] == t);
        assert(dec.skip(1) =~= sp_decrypt_s(sp_absorb1(m, t), cs.skip(1)).0);
    }
}

/// Absorbing a concatenation is absorbing its parts in order.
pub proof fn lemma_absorb_s_app(m: SpongosView, a: Seq<u8>, b: Seq<u8>)
    ensures
        sp_absorb_s(m, a + b) == sp_absorb_s(sp_absorb_s(m, a), b),
    decreases a.len(),
{
    reveal_with_fuel(sp_absorb_s, 3);
    if a.len() == 0 {
        assert(a + b =~= b);
    } else {
        assert((a + b)[0] == a[0]);
        assert((a + b).skip(1) =~= a.skip(1) + b);
        lemma_absorb_s_app(sp_absorb1(m, a[0]), a.skip(1), b);
    }
}

pub proof fn lemma_commit_wf(m: SpongosView)
    requires
        sp_wf(m),
    ensures
        sp_wf(sp_commit(m)),
{
    lemma_permute_wf(m.s);
}

// Unrolling lemmas used by the exec loops below.

pub proof fn lemma_absorb_s_snoc(m: SpongosView, ts: Seq<u8>, t: u8)
    ensures
        sp_absorb_s(m, ts.push(t)) == sp_absorb1(sp_absorb_s(m, ts), t),
    decreases ts.len(),
{
    reveal_with_fuel(sp_absorb_s, 3);
    if ts.len() == 0 {
        assert(ts.push(t)[0] == t);
        assert(ts.push(t).skip(1) =~= Seq::<u8>::empty());
    } else {
        assert(ts.push(t)[0] == ts[0]);
        assert(ts.push(t).skip(1) =~= ts.skip(1).push(t));
        lemma_absorb_s_snoc(sp_absorb1(m, ts[0]), ts.skip(1), t);
    }
}

pub proof fn lemma_squeeze_s_snoc(m: SpongosView, n: nat)
    ensures
        sp_squeeze_s(m, n + 1).0 == sp_squeeze_s(m, n).0.push(sp_squeeze1(sp_squeeze_s(m, n).1).0),
        sp_squeeze_s(m, n + 1).1 == sp_squeeze1(sp_squeeze_s(m, n).1).1,
    decreases n,
{
    let first = sp_squeeze1(m);
    assert(sp_squeeze_s(m, n + 1) == (
        seq![first.0] + sp_squeeze_s(first.1, n).0,
        sp_squeeze_s(first.1, n).1,
    ));
    if n == 0 {
        assert(sp_squeeze_s(m, 1).0 =~= Seq::<u8>::empty().push(sp_squeeze1(m).0));
    } else {
        lemma_squeeze_s_snoc(first.1, (n - 1) as nat);
        assert(sp_squeeze_s(m, n) == (
            seq![first.0] + sp_squeeze_s(first.1, (n - 1) as nat).0,
            sp_squeeze_s(first.1, (n - 1) as nat).1,
        ));
        assert(sp_squeeze_s(m, n + 1).0 =~= sp_squeeze_s(m, n).0.push(
            sp_squeeze1(sp_squeeze_s(m, n).1).0,
        ));
    }
}

pub proof fn lemma_encrypt_s_snoc(m: SpongosView, ts: Seq<u8>, t: u8)
    ensures
        sp_encrypt_s(m, ts.push(t)).0 == sp_encrypt_s(m, ts).0.push(
            sp_encrypt1(sp_encrypt_s(m, ts).1, t).0,
        ),
        sp_encrypt_s(m, ts.push(t)).1 == sp_encrypt1(sp_encrypt_s(m, ts).1, t).1,
    decreases ts.len(),
{
    reveal_with_fuel(sp_encrypt_s, 3);
    if ts.len() == 0 {
        assert(ts.push(t)[0] == t);
        assert(ts.push(t).skip(1) =~= Seq::<u8>::empty());
        assert(sp_encrypt_s(m, ts.push(t)).0 =~= sp_encrypt_s(m, ts).0.push(
            sp_encrypt1(sp_encrypt_s(m, ts).1, t).0,
        ));
    } else {
        assert(ts.push(t)[0] == ts[0]);
        assert(ts.push(t).skip(1) =~= ts.skip(1).push(t));
        lemma_encrypt_s_snoc(sp_encrypt1(m, ts[0]).1, ts.skip(1), t);
        assert(sp_encrypt_s(m, ts.push(t)) == (
            seq![sp_encrypt1(m, ts[0]).0] + sp_encrypt_s(sp_encrypt1(m, ts[0]).1, ts.skip(1).push(t)).0,
            sp_encrypt_s(sp_encrypt1(m, ts[0]).1, ts.skip(1).push(t)).1,
        ));
        assert(sp_encrypt_s(m, ts) == (
            seq![sp_encrypt1(m, ts[0]).0] + sp_encrypt_s(sp_encrypt1(m, ts[0]).1, ts.skip(1)).0,
            sp_encrypt_s(sp_encrypt1(m, ts[0]).1, ts.skip(1)).1,
        ));
        assert(sp_encrypt_s(m, ts.push(t)).0 =~= sp_encrypt_s(m, ts).0.push(
            sp_encrypt1(sp_encrypt_s(m, ts).1, t).0,
        ));
    }
}

pub proof fn lemma_decrypt_s_snoc(m: SpongosView, cs: Seq<u8>, c: u8)
    ensures
        sp_decrypt_s(m, cs.push(c)).0 == sp_decrypt_s(m, cs).0.push(
            sp_decrypt1(sp_decrypt_s(m, cs).1, c).0,
        ),
        sp_decrypt_s(m, cs.push(c)).1 == sp_decrypt1(sp_decrypt_s(m, cs).1, c).1,
    decreases cs.len(),
{
    reveal_with_fuel(sp_decrypt_s, 3);
    if cs.len() == 0 {
        assert(cs.push(c)[0] == c);
        assert(cs.push(c).skip(1) =~= Seq::<u8>::empty());
        assert(sp_decrypt_s(m, cs.push(c)).0 =~= sp_decrypt_s(m, cs).0.push(
            sp_decrypt1(sp_decrypt_s(m, cs).1, c).0,
        ));
    } else {
        assert(cs.push(c)[0] == cs[0]);
        assert(cs.push(c).skip(1) =~= cs.skip(1).push(c));
        lemma_decrypt_s_snoc(sp_decrypt1(m, cs[0]).1, cs.skip(1), c);
        assert(sp_decrypt_s(m, cs.push(c)) == (
            seq![sp_decrypt1(m, cs[0]).0] + sp_decrypt_s(sp_decrypt1(m, cs[0]).1, cs.skip(1).push(c)).0,
            sp_decrypt_s(sp_decrypt1(m, cs[0]).1, cs.skip(1).push(c)).1,
        ));
        assert(sp_decrypt_s(m, cs) == (
            seq![sp_decrypt1(m, cs[0]).0] + sp_decrypt_s(sp_decrypt1(m, cs[0]).1, cs.skip(1)).0,
            sp_decrypt_s(sp_decrypt1(m, cs[0]).1, cs.skip(1)).1,
        ));
        assert(sp_decrypt_s(m, cs.push(c)).0 =~= sp_decrypt_s(m, cs).0.push(
            sp_decrypt1(sp_decrypt_s(m, cs).1, c).0,
        ));
    }
}

// ---------------------------------------------------------------------------
// The executable sponge.
// ---------------------------------------------------------------------------

/// A sponge/duplex state over trits.  Each pass owns its own instance; the
/// construction is an explicit value, never process-global.
pub struct Spongos {
    pub s: Vec<u8>,
    pub pos: usize,
}

impl View for Spongos {
    type V = SpongosView;

    open spec fn view(&self) -> SpongosView {
        SpongosView { s: self.s@, pos: self.pos as nat }
    }
}

impl Spongos {
    pub open spec fn wf(&self) -> bool {
        sp_wf(self@)
    }

    /// The all-zero starting state.
    pub fn new() -> (r: Spongos)
        ensures
            r.wf(),
            r@.s == Seq::new(STATE_SIZE as nat, |i: int| 0u8),
            r@.pos == 0,
    {
        let mut v: Vec<u8> = Vec::new();
        let mut i: usize = 0;
        while i < STATE_SIZE
            invariant
                i <= STATE_SIZE,
                v@.len() == i,
                forall|j: int| 0 <= j < i ==> v@[j] == 0,
            decreases STATE_SIZE - i,
        {
            v.push(0);
            i = i + 1;
        }
        proof {
            assert(v@ =~= Seq::new(STATE_SIZE as nat, |i: int| 0u8));
        }
        Spongos { s: v, pos: 0 }
    }

    /// An independent copy: forks branch the transcript from here.
    pub fn duplicate(&self) -> (r: Spongos)
        ensures
            r@ == self@,
    {
        let mut v: Vec<u8> = Vec::new();
        let mut i: usize = 0;
        while i < self.s.len()
            invariant
                i <= self.s@.len(),
                v@ == self.s@.take(i as int),
            decreases self.s@.len() - i,
        {
            v.push(self.s[i]);
            proof {
                assert(v@ =~= self.s@.take(i + 1));
            }
            i = i + 1;
        }
        proof {
            assert(v@ =~= self.s@);
        }
        Spongos { s: v, pos: self.pos }
    }

    fn permute(&mut self)
        requires
            old(self).wf(),
        ensures
            final(self)@.s == permute_v(old(self)@.s),
            final(self)@.pos == old(self)@.pos,
            final(self).wf(),
    {
        let n = self.s.len();
        let mut v: Vec<u8> = Vec::new();
        let mut i: usize = 0;
        while i < n
            invariant
                i <= n,
                n == self.s@.len(),
                self.wf(),
                v@.len() == i,
                forall|j: int| 0 <= j < i ==> v@[j] == permute_v(self.s@)[j],
            decreases n - i,
        {
            let j = if i + 1 == n {
                0
            } else {
                i + 1
            };
            let t = add_t(self.s[i], add_t(self.s[j], (i % 3) as u8));
            v.push(t);
            i = i + 1;
        }
        proof {
            assert(v@ =~= permute_v(self.s@));
            lemma_permute_wf(self.s@);
        }
        self.s = v;
    }

    fn put(&mut self, x: u8)
        requires
            old(self).wf(),
            x < 3,
        ensures
            final(self)@ == sp_put(old(self)@, x),
            final(self).wf(),
    {
        self.s.set(self.pos, x);
        proof {
            lemma_put_wf(old(self)@, x);
        }
        if self.pos + 1 == RATE {
            self.permute();
            self.pos = 0;
        } else {
            self.pos = self.pos + 1;
        }
    }

    /// Folds the trits into the transcript.
    pub fn absorb(&mut self, ts: &Vec<u8>)
        requires
            old(self).wf(),
            trits_wf(ts@),
        ensures
            final(self)@ == sp_absorb_s(old(self)@, ts@),
            final(self).wf(),
    {
        let mut i: usize = 0;
        while i < ts.len()
            invariant
                i <= ts@.len(),
                trits_wf(ts@),
                self.wf(),
                self@ == sp_absorb_s(old(self)@, ts@.take(i as int)),
            decreases ts@.len() - i,
        {
            let t = ts[i];
            let k = self.s[self.pos];
            proof {
                lemma_absorb_s_snoc(old(self)@, ts@.take(i as int), t);
                assert(ts@.take(i + 1) =~= ts@.take(i as int).push(t));
            }
            self.put(add_t(k, t));
            i = i + 1;
        }
        proof {
            assert(ts@.take(ts@.len() as int) =~= ts@);
        }
    }

    /// Extracts `n` trits of sponge output.
    pub fn squeeze(&mut self, n: usize) -> (r: Vec<u8>)
        requires
            old(self).wf(),
        ensures
            r@ == sp_squeeze_s(old(self)@, n as nat).0,
            final(self)@ == sp_squeeze_s(old(self)@, n as nat).1,
            final(self).wf(),
            r@.len() == n,
            trits_wf(r@),
    {
        let mut r: Vec<u8> = Vec::new();
        let mut i: usize = 0;
        while i < n
            invariant
                i <= n,
                self.wf(),
                r@ == sp_squeeze_s(old(self)@, i as nat).0,
                self@ == sp_squeeze_s(old(self)@, i as nat).1,
            decreases n - i,
        {
            let t = self.s[self.pos];
            proof {
                lemma_squeeze_s_snoc(old(self)@, i as nat);
            }
            self.put(0);
            r.push(t);
            i = i + 1;
        }
        proof {
            lemma_squeeze_s_wf(old(self)@, n as nat);
        }
        r
    }

    /// Emits ciphertext for the cleartext trits and absorbs the cleartext.
    pub fn encrypt(&mut self, ts: &Vec<u8>) -> (r: Vec<u8>)
        requires
            old(self).wf(),
            trits_wf(ts@),
        ensures
            r@ == sp_encrypt_s(old(self)@, ts@).0,
            final(self)@ == sp_encrypt_s(old(self)@, ts@).1,
            final(self).wf(),
            r@.len() == ts@.len(),
            trits_wf(r@),
    {
        let mut r: Vec<u8> = Vec::new();
        let mut i: usize = 0;
        while i < ts.len()
            invariant
                i <= ts@.len(),
                trits_wf(ts@),
                self.wf(),
                r@ == sp_encrypt_s(old(self)@, ts@.take(i as int)).0,
                self@ == sp_encrypt_s(old(self)@, ts@.take(i as int)).1,
            decreases ts@.len() - i,
        {
            let t = ts[i];
            let k = self.s[self.pos];
            let c = add_t(t, k);
            proof {
                lemma_encrypt_s_snoc(old(self)@, ts@.take(i as int), t);
                assert(ts@.take(i + 1) =~= ts@.take(i as int).push(t));
            }
            self.put(add_t(k, t));
            r.push(c);
            i = i + 1;
        }
        proof {
            assert(ts@.take(ts@.len() as int) =~= ts@);
            lemma_encrypt_s(old(self)@, ts@);
        }
        r
    }

    /// Decrypts one trit of ciphertext, absorbing the recovered cleartext.
    pub fn decrypt_one(&mut self, c: u8) -> (t: u8)
        requires
            old(self).wf(),
            c < 3,
        ensures
            t == sp_decrypt1(old(self)@, c).0,
            final(self)@ == sp_decrypt1(old(self)@, c).1,
            final(self).wf(),
            t < 3,
    {
        let k = self.s[self.pos];
        let t = sub_t(c, k);
        proof {
            lemma_tadd_tsub(c, k);
            lemma_absorb1_wf(old(self)@, t);
        }
        self.put(add_t(k, t));
        t
    }

    /// Decrypts the ciphertext trits, absorbing the recovered cleartext.
    pub fn decrypt(&mut self, cs: &Vec<u8>) -> (r: Vec<u8>)
        requires
            old(self).wf(),
            trits_wf(cs@),
        ensures
            r@ == sp_decrypt_s(old(self)@, cs@).0,
            final(self)@ == sp_decrypt_s(old(self)@, cs@).1,
            final(self).wf(),
            r@.len() == cs@.len(),
            trits_wf(r@),
    {
        let mut r: Vec<u8> = Vec::new();
        let mut i: usize = 0;
        while i < cs.len()
            invariant
                i <= cs@.len(),
                trits_wf(cs@),
                self.wf(),
                r@ == sp_decrypt_s(old(self)@, cs@.take(i as int)).0,
                self@ == sp_decrypt_s(old(self)@, cs@.take(i as int)).1,
            decreases cs@.len() - i,
        {
            let c = cs[i];
            proof {
                lemma_decrypt_s_snoc(old(self)@, cs@.take(i as int), c);
                assert(cs@.take(i + 1) =~= cs@.take(i as int).push(c));
            }
            let t = self.decrypt_one(c);
            r.push(t);
            i = i + 1;
        }
        proof {
            assert(cs@.take(cs@.len() as int) =~= cs@);
            lemma_decrypt_s_absorbs(old(self)@, cs@);
        }
        r
    }

    /// Closes the current permutation block.
    pub fn commit(&mut self)
        requires
            old(self).wf(),
        ensures
            final(self)@ == sp_commit(old(self)@),
            final(self).wf(),
    {
        if self.pos != 0 {
            self.permute();
            self.pos = 0;
        }
    }
}

} // verus!
