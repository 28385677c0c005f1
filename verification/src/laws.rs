use vstd::prelude::*;
use vstd::arithmetic::power2::pow2;
use crate::trits::trits_wf;
use crate::types::{
    Mac, NTrytes, Trytes, enc_size, sizeof_sizet, size_trytes, lemma_enc_trint3,
    lemma_enc_size, lemma_enc_tryte, lemma_enc_digits, lemma_size_trytes, lemma_size_trytes_fits,
};
use crate::spongos::{
    SpongosView, sp_wf, sp_absorb_s, sp_squeeze_s, sp_commit, lemma_absorb_s_wf, lemma_squeeze_s_wf,
    lemma_encrypt_s, lemma_decrypt_roundtrip, lemma_commit_wf,
};
use crate::mss;
use crate::ntru;
use crate::unwrap::{seg, size_parse_ok, size_digits_at, size_value_at};
use crate::link::{resolve_v, lemma_resolve_wf_seq};
use crate::ops::{
    Prim, Op, ValV, KeysV, keys_wf, prim_wf, prims_wf, op_wf, ops_wf, rep_prims, sizeof_prim,
    sizeof_prims, sizeof_op, sizeof_ops_v, wrap_prim, wrap_prims, wrap_op, wrap_ops_v, unwrap_prim,
    unwrap_prims, unwrap_op, unwrap_ops_v, expected_vals_prim, expected_vals_prims,
    expected_vals_op, expected_vals_ops,
};

verus! {

// The laws that tie the three passes together.  The size pass predicts the
// writer's output length exactly; the reader recovers exactly the values the
// writer consumed, with the sponge in lockstep; a tampered squeeze region
// fails the parse; one-time keys are consumed exactly once each; external
// values change the transcript but never the wire; and a fork leaves the
// outer transcript untouched.

/// Every step the writer takes keeps trits well-formed, the sponge
/// well-formed, and the key consumption monotone and within capacity.
pub proof fn lemma_wrap_prim_wf(p: Prim, m: SpongosView, used: nat, k: KeysV)
    requires
        prim_wf(p),
        sp_wf(m),
        keys_wf(k),
        used <= pow2(k.height),
    ensures
        wrap_prim(p, m, used, k) matches Some(st) ==> trits_wf(st.0) && sp_wf(st.1) && used
            <= st.2 <= pow2(k.height),
{
    match p {
        Prim::AbsorbTrint3(v) => {
            lemma_enc_trint3(v.0 as int);
            lemma_absorb_s_wf(m, crate::types::enc_trint3(v.0 as int));
        },
        Prim::AbsorbSize(s) => {
            lemma_enc_size(s.0 as nat);
            lemma_absorb_s_wf(m, enc_size(s.0 as nat));
        },
        Prim::AbsorbTrytes(t) => {
            if t@.len() % 3 == 0 {
                lemma_enc_size(t@.len() / 3);
                assert(trits_wf(enc_size(t@.len() / 3) + t@));
                lemma_absorb_s_wf(m, enc_size(t@.len() / 3) + t@);
            }
        },
        Prim::AbsorbNTrytes(t) => {
            lemma_absorb_s_wf(m, t@);
        },
        Prim::AbsorbExternal(t) => {
            lemma_absorb_s_wf(m, t@);
        },
        Prim::MaskTrint3(v) => {
            lemma_enc_trint3(v.0 as int);
            lemma_encrypt_s(m, crate::types::enc_trint3(v.0 as int));
        },
        Prim::MaskNTrytes(t) => {
            if t@.len() % 3 == 0 {
                lemma_encrypt_s(m, t@);
            }
        },
        Prim::SkipTrint3(v) => {
            lemma_enc_trint3(v.0 as int);
        },
        Prim::SkipNTrytes(_) => {},
        Prim::SqueezeMac(mac) => {
            lemma_squeeze_s_wf(m, mac.0 as nat);
        },
        Prim::Commit => {
            lemma_commit_wf(m);
        },
        Prim::MssSign => {
            if used < pow2(k.height) {
                lemma_commit_wf(m);
                lemma_squeeze_s_wf(sp_commit(m), mss::HASH_SIZE as nat);
                lemma_idx_small(used, k.height);
                mss::lemma_sig_v(
                    k.seed,
                    k.height,
                    used,
                    sp_squeeze_s(sp_commit(m), mss::HASH_SIZE as nat).0,
                );
            }
        },
        Prim::NtruKem(s) => {
            if s@.len() == ntru::KEY_SIZE {
                ntru::lemma_encap_wf(k.ntru, s@);
            }
        },
    }
}

/// A leaf index inside a tree of height at most 20 fits the signature's
/// index prefix.
pub proof fn lemma_idx_small(used: nat, height: nat)
    requires
        used < pow2(height),
        height <= mss::MAX_HEIGHT,
    ensures
        used < mss::pow3(mss::SKN_SIZE as nat),
        used < pow2(20),
{
    if height < 20 {
        vstd::arithmetic::power2::lemma_pow2_strictly_increases(height, 20);
    }
    mss::lemma_idx_fits(used);
}

pub proof fn lemma_wrap_prims_wf(s: Seq<Prim>, m: SpongosView, used: nat, k: KeysV)
    requires
        prims_wf(s),
        sp_wf(m),
        keys_wf(k),
        used <= pow2(k.height),
    ensures
        wrap_prims(s, m, used, k) matches Some(st) ==> trits_wf(st.0) && sp_wf(st.1) && used
            <= st.2 <= pow2(k.height),
    decreases s.len(),
{
    if s.len() > 0 {
        lemma_wrap_prim_wf(s[0], m, used, k);
        match wrap_prim(s[0], m, used, k) {
            None => {},
            Some(st) => {
                assert(prims_wf(s.skip(1)));
                lemma_wrap_prims_wf(s.skip(1), st.1, st.2, k);
            },
        }
    }
}

pub proof fn lemma_wrap_op_wf(op: Op, m: SpongosView, used: nat, k: KeysV)
    requires
        op_wf(op),
        sp_wf(m),
        keys_wf(k),
        used <= pow2(k.height),
    ensures
        wrap_op(op, m, used, k) matches Some(st) ==> trits_wf(st.0) && sp_wf(st.1) && used
            <= st.2 <= pow2(k.height),
{
    match op {
        Op::Prim(p) => {
            lemma_wrap_prim_wf(p, m, used, k);
        },
        Op::Fork(sub) => {
            lemma_wrap_prims_wf(sub@, m, used, k);
        },
        Op::Repeated(items) => {
            assert(prims_wf(rep_prims(items@))) by {
                assert(forall|i: int|
                    0 <= i < items@.len() ==> rep_prims(items@)[i] == Prim::AbsorbTrytes(
                        items@[i],
                    ));
            };
            lemma_wrap_prims_wf(rep_prims(items@), m, used, k);
        },
        Op::Join(l) => {
            if l@.len() % 3 == 0 && resolve_v(k.store, l@) is Some {
                lemma_resolve_wf_seq(k.store, l@);
                lemma_absorb_s_wf(m, resolve_v(k.store, l@).unwrap());
            }
        },
    }
}

pub proof fn lemma_wrap_ops_wf(s: Seq<Op>, m: SpongosView, used: nat, k: KeysV)
    requires
        ops_wf(s),
        sp_wf(m),
        keys_wf(k),
        used <= pow2(k.height),
    ensures
        wrap_ops_v(s, m, used, k) matches Some(st) ==> trits_wf(st.0) && sp_wf(st.1) && used
            <= st.2 <= pow2(k.height),
    decreases s.len(),
{
    if s.len() > 0 {
        lemma_wrap_op_wf(s[0], m, used, k);
        match wrap_op(s[0], m, used, k) {
            None => {},
            Some(st) => {
                assert(ops_wf(s.skip(1)));
                lemma_wrap_ops_wf(s.skip(1), st.1, st.2, k);
            },
        }
    }
}

// ---------------------------------------------------------------------------
// Size/Wrap equivalence: whenever the writer succeeds, the size pass
// succeeds too, and its total is exactly the writer's output length.
// ---------------------------------------------------------------------------

proof fn lemma_p1_prim(p: Prim, m: SpongosView, used: nat, u0: nat, k: KeysV)
    requires
        prim_wf(p),
        sp_wf(m),
        keys_wf(k),
        u0 <= used <= pow2(k.height),
    ensures
        wrap_prim(p, m, used, k) matches Some(st) ==> sizeof_prim(p, u0, k) == Some(
            st.0.len() as nat,
        ),
{
    lemma_wrap_prim_wf(p, m, used, k);
    match p {
        Prim::AbsorbTrint3(v) => {
            lemma_enc_trint3(v.0 as int);
        },
        Prim::AbsorbSize(s) => {
            lemma_enc_size(s.0 as nat);
        },
        Prim::AbsorbTrytes(t) => {
            if t@.len() % 3 == 0 {
                lemma_enc_size(t@.len() / 3);
            }
        },
        Prim::MaskTrint3(v) => {
            lemma_enc_trint3(v.0 as int);
            lemma_encrypt_s(m, crate::types::enc_trint3(v.0 as int));
        },
        Prim::MaskNTrytes(t) => {
            if t@.len() % 3 == 0 {
                lemma_encrypt_s(m, t@);
            }
        },
        Prim::SkipTrint3(v) => {
            lemma_enc_trint3(v.0 as int);
        },
        Prim::SqueezeMac(mac) => {
            lemma_squeeze_s_wf(m, mac.0 as nat);
        },
        Prim::MssSign => {
            if used < pow2(k.height) {
                lemma_commit_wf(m);
                lemma_squeeze_s_wf(sp_commit(m), mss::HASH_SIZE as nat);
                lemma_idx_small(used, k.height);
                mss::lemma_sig_v(
                    k.seed,
                    k.height,
                    used,
                    sp_squeeze_s(sp_commit(m), mss::HASH_SIZE as nat).0,
                );
            }
        },
        Prim::NtruKem(s) => {
            if s@.len() == ntru::KEY_SIZE {
                ntru::lemma_encap_wf(k.ntru, s@);
            }
        },
        _ => {},
    }
}

proof fn lemma_p1_prims(s: Seq<Prim>, m: SpongosView, used: nat, u0: nat, k: KeysV)
    requires
        prims_wf(s),
        sp_wf(m),
        keys_wf(k),
        u0 <= used <= pow2(k.height),
    ensures
        wrap_prims(s, m, used, k) matches Some(st) ==> sizeof_prims(s, u0, k) == Some(
            st.0.len() as nat,
        ),
    decreases s.len(),
{
    if s.len() > 0 {
        lemma_p1_prim(s[0], m, used, u0, k);
        lemma_wrap_prim_wf(s[0], m, used, k);
        match wrap_prim(s[0], m, used, k) {
            None => {},
            Some(st) => {
                assert(prims_wf(s.skip(1)));
                lemma_p1_prims(s.skip(1), st.1, st.2, u0, k);
            },
        }
    }
}

proof fn lemma_p1_op(op: Op, m: SpongosView, used: nat, u0: nat, k: KeysV)
    requires
        op_wf(op),
        sp_wf(m),
        keys_wf(k),
        u0 <= used <= pow2(k.height),
    ensures
        wrap_op(op, m, used, k) matches Some(st) ==> sizeof_op(op, u0, k) == Some(
            st.0.len() as nat,
        ),
{
    match op {
        Op::Prim(p) => {
            lemma_p1_prim(p, m, used, u0, k);
        },
        Op::Fork(sub) => {
            lemma_p1_prims(sub@, m, used, u0, k);
        },
        Op::Repeated(items) => {
            assert(prims_wf(rep_prims(items@))) by {
                assert(forall|i: int|
                    0 <= i < items@.len() ==> rep_prims(items@)[i] == Prim::AbsorbTrytes(
                        items@[i],
                    ));
            };
            lemma_p1_prims(rep_prims(items@), m, used, u0, k);
        },
        Op::Join(_) => {},
    }
}

/// Size/Wrap equivalence: the size pass computes exactly the length of what
/// the writing pass emits, for any layout and any values on which the
/// writer succeeds.
pub proof fn lemma_size_wrap_equivalence(s: Seq<Op>, m: SpongosView, used: nat, k: KeysV)
    requires
        ops_wf(s),
        sp_wf(m),
        keys_wf(k),
        used <= pow2(k.height),
    ensures
        wrap_ops_v(s, m, used, k) matches Some(st) ==> sizeof_ops_v(s, used, k) == Some(
            st.0.len() as nat,
        ),
    decreases s.len(),
{
    lemma_size_wrap_equivalence_gen(s, m, used, used, k);
}

proof fn lemma_size_wrap_equivalence_gen(s: Seq<Op>, m: SpongosView, used: nat, u0: nat, k: KeysV)
    requires
        ops_wf(s),
        sp_wf(m),
        keys_wf(k),
        u0 <= used <= pow2(k.height),
    ensures
        wrap_ops_v(s, m, used, k) matches Some(st) ==> sizeof_ops_v(s, u0, k) == Some(
            st.0.len() as nat,
        ),
    decreases s.len(),
{
    if s.len() > 0 {
        lemma_p1_op(s[0], m, used, u0, k);
        lemma_wrap_op_wf(s[0], m, used, k);
        match wrap_op(s[0], m, used, k) {
            None => {},
            Some(st) => {
                assert(ops_wf(s.skip(1)));
                lemma_size_wrap_equivalence_gen(s.skip(1), st.1, st.2, u0, k);
            },
        }
    }
}

// ---------------------------------------------------------------------------
// Round trip: reading what the writer produced yields exactly the values
// the writer consumed, consumes exactly its bytes, and leaves the sponge in
// the writer's final state.
// ---------------------------------------------------------------------------

/// Splitting a known segment of the wire into two adjacent segments.
proof fn lemma_seg_split(w: Seq<u8>, c: nat, b1: Seq<u8>, b2: Seq<u8>)
    requires
        c + b1.len() + b2.len() <= w.len(),
        seg(w, c, (b1 + b2).len()) == b1 + b2,
    ensures
        seg(w, c, b1.len()) == b1,
        seg(w, (c + b1.len()) as nat, b2.len()) == b2,
{
    assert(seg(w, c, b1.len()) =~= b1) by {
        assert(forall|i: int|
            0 <= i < b1.len() ==> w[c + i] == (b1 + b2)[i] && (b1 + b2)[i] == b1[i]);
    };
    assert(seg(w, (c + b1.len()) as nat, b2.len()) =~= b2) by {
        assert(forall|i: int|
            0 <= i < b2.len() ==> w[c + b1.len() + i] == (b1 + b2)[b1.len() + i] && (b1 + b2)[b1.len()
                + i] == b2[i]);
    };
}

/// A size encoding sitting on the wire parses back to its value.
proof fn lemma_parse_enc_size(w: Seq<u8>, c: nat, n: nat)
    requires
        n <= usize::MAX,
        c + sizeof_sizet(n) <= w.len(),
        seg(w, c, sizeof_sizet(n)) == enc_size(n),
    ensures
        size_parse_ok(w, c),
        size_digits_at(w, c) == size_trytes(n),
        size_value_at(w, c) == n,
{
    let d = size_trytes(n);
    lemma_size_trytes_fits(n);
    lemma_size_trytes(n);
    lemma_enc_tryte(d);
    lemma_enc_digits(n, d);
    assert(seg(w, c, 3) =~= enc_tryte_of(d)) by {
        assert(forall|i: int|
            0 <= i < 3 ==> w[c + i] == enc_size(n)[i] && enc_size(n)[i] == crate::types::enc_tryte(
                d,
            )[i]);
    };
    assert(size_digits_at(w, c) == d);
    assert(seg(w, c + 3, 3 * d) =~= crate::types::enc_digits(n, d)) by {
        assert(forall|i: int|
            0 <= i < 3 * d ==> w[c + 3 + i] == enc_size(n)[3 + i] && enc_size(n)[3 + i]
                == crate::types::enc_digits(n, d)[i]);
    };
    assert(size_value_at(w, c) == n);
}

spec fn enc_tryte_of(d: nat) -> Seq<u8> {
    crate::types::enc_tryte(d)
}

/// One written primitive reads back to its own cleartext value wherever its
/// bytes sit on a wire.
#[verifier::rlimit(100)]
proof fn lemma_p2_prim(p: Prim, m: SpongosView, used: nat, k: KeysV, w: Seq<u8>, c: nat)
    requires
        prim_wf(p),
        sp_wf(m),
        keys_wf(k),
        used <= pow2(k.height),
        trits_wf(w),
        wrap_prim(p, m, used, k) is Some,
        c + wrap_prim(p, m, used, k).unwrap().0.len() <= w.len(),
        seg(w, c, wrap_prim(p, m, used, k).unwrap().0.len()) == wrap_prim(p, m, used, k).unwrap().0,
    ensures
        unwrap_prim(p, w, c, m, k) == Some(
            (
                expected_vals_prim(p),
                (c + wrap_prim(p, m, used, k).unwrap().0.len()) as nat,
                wrap_prim(p, m, used, k).unwrap().1,
            ),
        ),
{
    let st = wrap_prim(p, m, used, k).unwrap();
    let b = st.0;
    match p {
        Prim::AbsorbTrint3(v) => {
            lemma_enc_trint3(v.0 as int);
            assert(b == crate::types::enc_trint3(v.0 as int));
            assert(seg(w, c, 3) == b);
            assert(sp_absorb_s(m, seg(w, c, 3)) == sp_absorb_s(m, b));
            assert(unwrap_prim(p, w, c, m, k).unwrap().0 =~= expected_vals_prim(p));
            assert(unwrap_prim(p, w, c, m, k).unwrap().2 == st.1);
        },
        Prim::AbsorbSize(s) => {
            lemma_enc_size(s.0 as nat);
            lemma_parse_enc_size(w, c, s.0 as nat);
            assert(unwrap_prim(p, w, c, m, k).unwrap().0 =~= expected_vals_prim(p));
            assert(seg(w, c, 3 + 3 * size_digits_at(w, c)) == b);
        },
        Prim::AbsorbTrytes(t) => {
            let n = t@.len();
            lemma_enc_size(n / 3);
            crate::spongos::lemma_absorb_s_app(m, enc_size(n / 3), t@);
            lemma_seg_split(w, c, enc_size(n / 3), t@);
            lemma_parse_enc_size(w, c, n / 3);
            assert(3 * size_value_at(w, c) == n);
            assert(seg(w, c + 3 + 3 * size_digits_at(w, c), n) == t@);
            assert(seg(w, c, 3 + 3 * size_digits_at(w, c)) == enc_size(n / 3));
            assert(unwrap_prim(p, w, c, m, k).unwrap().0 =~= expected_vals_prim(p));
        },
        Prim::AbsorbNTrytes(t) => {
            assert(seg(w, c, t@.len()) == b);
            assert(unwrap_prim(p, w, c, m, k).unwrap().0 =~= expected_vals_prim(p));
        },
        Prim::AbsorbExternal(_) => {
            assert(unwrap_prim(p, w, c, m, k).unwrap().0 =~= expected_vals_prim(p));
            assert((c + 0) as nat == c);
        },
        Prim::MaskTrint3(v) => {
            lemma_enc_trint3(v.0 as int);
            lemma_decrypt_roundtrip(m, crate::types::enc_trint3(v.0 as int));
            lemma_encrypt_s(m, crate::types::enc_trint3(v.0 as int));
            assert(seg(w, c, 3) == b);
            assert(unwrap_prim(p, w, c, m, k).unwrap().0 =~= expected_vals_prim(p));
        },
        Prim::MaskNTrytes(t) => {
            lemma_decrypt_roundtrip(m, t@);
            lemma_encrypt_s(m, t@);
            assert(seg(w, c, t@.len()) == b);
            assert(unwrap_prim(p, w, c, m, k).unwrap().0 =~= expected_vals_prim(p));
        },
        Prim::SkipTrint3(v) => {
            lemma_enc_trint3(v.0 as int);
            assert(seg(w, c, 3) == b);
            assert(unwrap_prim(p, w, c, m, k).unwrap().0 =~= expected_vals_prim(p));
        },
        Prim::SkipNTrytes(t) => {
            assert(seg(w, c, t@.len()) == b);
            assert(unwrap_prim(p, w, c, m, k).unwrap().0 =~= expected_vals_prim(p));
        },
        Prim::SqueezeMac(mac) => {
            lemma_squeeze_s_wf(m, mac.0 as nat);
            assert(seg(w, c, mac.0 as nat) == b);
            assert(unwrap_prim(p, w, c, m, k).unwrap().0 =~= expected_vals_prim(p));
        },
        Prim::Commit => {
            assert(unwrap_prim(p, w, c, m, k).unwrap().0 =~= expected_vals_prim(p));
            assert((c + 0) as nat == c);
        },
        Prim::MssSign => {
            lemma_commit_wf(m);
            lemma_squeeze_s_wf(sp_commit(m), mss::HASH_SIZE as nat);
            let hash = sp_squeeze_s(sp_commit(m), mss::HASH_SIZE as nat).0;
            lemma_idx_small(used, k.height);
            mss::lemma_sig_v(k.seed, k.height, used, hash);
            mss::lemma_base3_digits(used, mss::SKN_SIZE as nat);
            let sig = mss::sig_v(k.seed, k.height, used, hash);
            assert(sig.take(mss::SKN_SIZE as int) =~= mss::base3_digits(
                used,
                mss::SKN_SIZE as nat,
            )) by {
                assert(forall|i: int|
                    0 <= i < mss::SKN_SIZE ==> sig[i] == mss::base3_digits(
                        used,
                        mss::SKN_SIZE as nat,
                    )[i]);
            };
            assert(mss::sig_idx(sig) == used);
            assert(seg(w, c, mss::sig_size_v(k.height)) == sig);
            assert(mss::sig_ok(k.seed, k.height, hash, seg(w, c, mss::sig_size_v(k.height))));
            assert(unwrap_prim(p, w, c, m, k).unwrap().0 =~= expected_vals_prim(p));
        },
        Prim::NtruKem(s) => {
            ntru::lemma_encap_wf(k.ntru, s@);
            ntru::lemma_kem_roundtrip(k.ntru, s@);
            assert(seg(w, c, ntru::EKEY_SIZE as nat) == b);
            assert(unwrap_prim(p, w, c, m, k).unwrap().0 =~= expected_vals_prim(p));
        },
    }
    assert(unwrap_prim(p, w, c, m, k) is Some);
    assert(unwrap_prim(p, w, c, m, k).unwrap().0 == expected_vals_prim(p));
    assert(unwrap_prim(p, w, c, m, k).unwrap().1 == (c + b.len()) as nat);
    assert(unwrap_prim(p, w, c, m, k).unwrap().2 == st.1);
}

proof fn lemma_p2_prims(s: Seq<Prim>, m: SpongosView, used: nat, k: KeysV, w: Seq<u8>, c: nat)
    requires
        prims_wf(s),
        sp_wf(m),
        keys_wf(k),
        used <= pow2(k.height),
        trits_wf(w),
        wrap_prims(s, m, used, k) is Some,
        c + wrap_prims(s, m, used, k).unwrap().0.len() <= w.len(),
        seg(w, c, wrap_prims(s, m, used, k).unwrap().0.len()) == wrap_prims(
            s,
            m,
            used,
            k,
        ).unwrap().0,
    ensures
        unwrap_prims(s, w, c, m, k) == Some(
            (
                expected_vals_prims(s),
                (c + wrap_prims(s, m, used, k).unwrap().0.len()) as nat,
                wrap_prims(s, m, used, k).unwrap().1,
            ),
        ),
    decreases s.len(),
{
    if s.len() == 0 {
        assert(unwrap_prims(s, w, c, m, k).unwrap().0 =~= expected_vals_prims(s));
    } else {
        let st = wrap_prim(s[0], m, used, k).unwrap();
        let rest = wrap_prims(s.skip(1), st.1, st.2, k).unwrap();
        lemma_wrap_prim_wf(s[0], m, used, k);
        assert(prims_wf(s.skip(1)));
        lemma_seg_split(w, c, st.0, rest.0);
        lemma_p2_prim(s[0], m, used, k, w, c);
        lemma_p2_prims(s.skip(1), st.1, st.2, k, w, (c + st.0.len()) as nat);
        assert(unwrap_prims(s, w, c, m, k).unwrap().0 =~= expected_vals_prims(s));
        assert(c + st.0.len() + rest.0.len() == c + (st.0 + rest.0).len());
    }
}

proof fn lemma_p2_op(op: Op, m: SpongosView, used: nat, k: KeysV, w: Seq<u8>, c: nat)
    requires
        op_wf(op),
        sp_wf(m),
        keys_wf(k),
        used <= pow2(k.height),
        trits_wf(w),
        wrap_op(op, m, used, k) is Some,
        c + wrap_op(op, m, used, k).unwrap().0.len() <= w.len(),
        seg(w, c, wrap_op(op, m, used, k).unwrap().0.len()) == wrap_op(op, m, used, k).unwrap().0,
    ensures
        unwrap_op(op, w, c, m, k) == Some(
            (
                expected_vals_op(op),
                (c + wrap_op(op, m, used, k).unwrap().0.len()) as nat,
                match op {
                    Op::Fork(_) => m,
                    _ => wrap_op(op, m, used, k).unwrap().1,
                },
            ),
        ),
{
    match op {
        Op::Prim(p) => {
            lemma_p2_prim(p, m, used, k, w, c);
        },
        Op::Fork(sub) => {
            lemma_p2_prims(sub@, m, used, k, w, c);
        },
        Op::Repeated(items) => {
            assert(prims_wf(rep_prims(items@))) by {
                assert(forall|i: int|
                    0 <= i < items@.len() ==> rep_prims(items@)[i] == Prim::AbsorbTrytes(
                        items@[i],
                    ));
            };
            lemma_p2_prims(rep_prims(items@), m, used, k, w, c);
        },
        Op::Join(l) => {
            assert(seg(w, c, l@.len()) == l@);
            lemma_resolve_wf_seq(k.store, l@);
            assert(unwrap_op(op, w, c, m, k).unwrap().0 =~= expected_vals_op(op));
        },
    }
}

/// Round trip: for any layout on which the writer succeeds, a reader given
/// the writer's bytes (wherever they sit on a longer wire) decodes exactly
/// the layout's cleartext values, consumes exactly those bytes, and ends
/// with the writer's sponge state.
pub proof fn lemma_round_trip(s: Seq<Op>, m: SpongosView, used: nat, k: KeysV, w: Seq<u8>, c: nat)
    requires
        ops_wf(s),
        sp_wf(m),
        keys_wf(k),
        used <= pow2(k.height),
        trits_wf(w),
        wrap_ops_v(s, m, used, k) is Some,
        c + wrap_ops_v(s, m, used, k).unwrap().0.len() <= w.len(),
        seg(w, c, wrap_ops_v(s, m, used, k).unwrap().0.len()) == wrap_ops_v(
            s,
            m,
            used,
            k,
        ).unwrap().0,
    ensures
        unwrap_ops_v(s, w, c, m, k) is Some,
        unwrap_ops_v(s, w, c, m, k).unwrap().0 == expected_vals_ops(s),
        unwrap_ops_v(s, w, c, m, k).unwrap().1 == c + wrap_ops_v(s, m, used, k).unwrap().0.len(),
    decreases s.len(),
{
    if s.len() == 0 {
        assert(unwrap_ops_v(s, w, c, m, k).unwrap().0 =~= expected_vals_ops(s));
    } else {
        let st = wrap_op(s[0], m, used, k).unwrap();
        let rest = wrap_ops_v(s.skip(1), st.1, st.2, k).unwrap();
        lemma_wrap_op_wf(s[0], m, used, k);
        assert(ops_wf(s.skip(1)));
        lemma_seg_split(w, c, st.0, rest.0);
        lemma_p2_op(s[0], m, used, k, w, c);
        lemma_round_trip_sync(s, m, used, k, w, c);
    }
}

/// The inner induction for [`lemma_round_trip`], carrying the sponge state.
#[verifier::rlimit(100)]
proof fn lemma_round_trip_sync(s: Seq<Op>, m: SpongosView, used: nat, k: KeysV, w: Seq<u8>, c: nat)
    requires
        ops_wf(s),
        sp_wf(m),
        keys_wf(k),
        used <= pow2(k.height),
        trits_wf(w),
        wrap_ops_v(s, m, used, k) is Some,
        c + wrap_ops_v(s, m, used, k).unwrap().0.len() <= w.len(),
        seg(w, c, wrap_ops_v(s, m, used, k).unwrap().0.len()) == wrap_ops_v(
            s,
            m,
            used,
            k,
        ).unwrap().0,
    ensures
        unwrap_ops_v(s, w, c, m, k) == Some(
            (
                expected_vals_ops(s),
                (c + wrap_ops_v(s, m, used, k).unwrap().0.len()) as nat,
                unwrap_ops_v(s, w, c, m, k).unwrap().2,
            ),
        ),
        s.len() > 0 || unwrap_ops_v(s, w, c, m, k).unwrap().2 == m,
    decreases s.len(), 1int,
{
    if s.len() == 0 {
        assert(unwrap_ops_v(s, w, c, m, k).unwrap().0 =~= expected_vals_ops(s));
    } else {
        let st = wrap_op(s[0], m, used, k).unwrap();
        let rest = wrap_ops_v(s.skip(1), st.1, st.2, k).unwrap();
        lemma_wrap_op_wf(s[0], m, used, k);
        assert(ops_wf(s.skip(1)));
        lemma_seg_split(w, c, st.0, rest.0);
        lemma_p2_op(s[0], m, used, k, w, c);
        let um = match s[0] {
            Op::Fork(_) => m,
            _ => st.1,
        };
        lemma_unwrap_continue(s, m, used, k, w, c, um, st, rest);
    }
}

/// Continues the round-trip induction after the first operation, for both
/// the fork and the straight-line sponge evolution.
proof fn lemma_unwrap_continue(
    s: Seq<Op>,
    m: SpongosView,
    used: nat,
    k: KeysV,
    w: Seq<u8>,
    c: nat,
    um: SpongosView,
    st: (Seq<u8>, SpongosView, nat),
    rest: (Seq<u8>, SpongosView, nat),
)
    requires
        s.len() > 0,
        ops_wf(s),
        sp_wf(m),
        keys_wf(k),
        used <= pow2(k.height),
        trits_wf(w),
        wrap_op(s[0], m, used, k) == Some(st),
        wrap_ops_v(s.skip(1), st.1, st.2, k) == Some(rest),
        wrap_ops_v(s, m, used, k) == Some((st.0 + rest.0, rest.1, rest.2)),
        c + st.0.len() + rest.0.len() <= w.len(),
        seg(w, (c + st.0.len()) as nat, rest.0.len()) == rest.0,
        unwrap_op(s[0], w, c, m, k) == Some(
            (expected_vals_op(s[0]), (c + st.0.len()) as nat, um),
        ),
        um == st.1 || s[0] is Fork,
        sp_wf(st.1),
        st.2 <= pow2(k.height),
    ensures
        unwrap_ops_v(s, w, c, m, k) == Some(
            (
                expected_vals_ops(s),
                (c + st.0.len() + rest.0.len()) as nat,
                unwrap_ops_v(s, w, c, m, k).unwrap().2,
            ),
        ),
    decreases s.len(), 0int,
{
    if s[0] is Fork {
        // A fork leaves the outer sponge exactly where it was, on both
        // sides: the reader continues from `m` just as the writer does.
        assert(um == m);
        lemma_round_trip_sync(s.skip(1), m, st.2, k, w, (c + st.0.len()) as nat);
        assert(wrap_ops_v(s.skip(1), m, st.2, k) == Some(rest)) by {
            lemma_fork_wrap_same(s, m, used, st, k);
        };
        assert(unwrap_ops_v(s, w, c, m, k).unwrap().0 =~= expected_vals_ops(s));
    } else {
        lemma_round_trip_sync(s.skip(1), st.1, st.2, k, w, (c + st.0.len()) as nat);
        assert(unwrap_ops_v(s, w, c, m, k).unwrap().0 =~= expected_vals_ops(s));
    }
}

/// For a leading fork, the writer's continuation runs on the unchanged
/// outer sponge.
proof fn lemma_fork_wrap_same(
    s: Seq<Op>,
    m: SpongosView,
    used: nat,
    st: (Seq<u8>, SpongosView, nat),
    k: KeysV,
)
    requires
        s.len() > 0,
        s[0] is Fork,
        wrap_op(s[0], m, used, k) == Some(st),
    ensures
        st.1 == m,
{
}

// ---------------------------------------------------------------------------
// Tamper detection (squeeze regions): if the wire agrees with the writer's
// bytes up to a final squeezed tag but differs somewhere inside the tag, the
// parse fails.
// ---------------------------------------------------------------------------

#[verifier::rlimit(100)]
proof fn lemma_unwrap_ops_snoc(s: Seq<Op>, op: Op, w: Seq<u8>, c: nat, m: SpongosView, k: KeysV)
    ensures
        unwrap_ops_v(s.push(op), w, c, m, k) == (match unwrap_ops_v(s, w, c, m, k) {
            None => None,
            Some(pre) => match unwrap_op(op, w, pre.1, pre.2, k) {
                None => None::<(Seq<ValV>, nat, SpongosView)>,
                Some(st) => Some((pre.0 + st.0, st.1, st.2)),
            },
        }),
    decreases s.len(),
{
    reveal_with_fuel(unwrap_ops_v, 3);
    if s.len() == 0 {
        assert(s.push(op)[0] == op);
        assert(s.push(op).skip(1) =~= Seq::<Op>::empty());
        match unwrap_op(op, w, c, m, k) {
            None => {},
            Some(st) => {
                assert(st.0 + Seq::<ValV>::empty() =~= st.0);
                assert(Seq::<ValV>::empty() + st.0 =~= st.0);
            },
        }
    } else {
        assert(s.push(op)[0] == s[0]);
        assert(s.push(op).skip(1) =~= s.skip(1).push(op));
        match unwrap_op(s[0], w, c, m, k) {
            None => {},
            Some(step) => {
                lemma_unwrap_ops_snoc(s.skip(1), op, w, step.1, step.2, k);
                match unwrap_ops_v(s.skip(1), w, step.1, step.2, k) {
                    None => {},
                    Some(pre) => {
                        match unwrap_op(op, w, pre.1, pre.2, k) {
                            None => {},
                            Some(st) => {
                                assert(step.0 + (pre.0 + st.0) =~= (step.0 + pre.0) + st.0);
                            },
                        }
                        assert(unwrap_ops_v(s, w, c, m, k) == Some(
                            (step.0 + pre.0, pre.1, pre.2),
                        ));
                    },
                }
            },
        }
    }
}

/// Tamper detection: a wire that matches the writer's output for a layout
/// but differs somewhere inside a final squeezed tag fails the parse; it is
/// never silently accepted.
pub proof fn lemma_tamper_detection(
    s: Seq<Op>,
    mac: Mac,
    m: SpongosView,
    used: nat,
    k: KeysV,
    w: Seq<u8>,
    c: nat,
)
    requires
        ops_wf(s),
        sp_wf(m),
        keys_wf(k),
        used <= pow2(k.height),
        trits_wf(w),
        mac.0 % 3 == 0,
        wrap_ops_v(s, m, used, k) is Some,
        c + wrap_ops_v(s, m, used, k).unwrap().0.len() + mac.0 <= w.len(),
        seg(w, c, wrap_ops_v(s, m, used, k).unwrap().0.len()) == wrap_ops_v(
            s,
            m,
            used,
            k,
        ).unwrap().0,
        seg(w, (c + wrap_ops_v(s, m, used, k).unwrap().0.len()) as nat, mac.0 as nat)
            != sp_squeeze_s(unwrap_ops_v(s, w, c, m, k).unwrap().2, mac.0 as nat).0,
    ensures
        unwrap_ops_v(s.push(Op::Prim(Prim::SqueezeMac(mac))), w, c, m, k) is None,
{
    lemma_round_trip_sync(s, m, used, k, w, c);
    lemma_unwrap_ops_snoc(s, Op::Prim(Prim::SqueezeMac(mac)), w, c, m, k);
}

// ---------------------------------------------------------------------------
// Key exhaustion: a signer with capacity for n more signatures succeeds on
// exactly n signing operations and fails on one more; the size pass fails
// as soon as no key is left.
// ---------------------------------------------------------------------------

/// A layout of `n` consecutive signing operations.
pub open spec fn sign_ops(n: nat) -> Seq<Op> {
    Seq::new(n, |i: int| Op::Prim(Prim::MssSign))
}

/// Key exhaustion: with `used` keys consumed out of `2^height`, a run of
/// `n` signatures wraps successfully exactly when `n` keys remain; and the
/// size pass accepts a signing layout exactly while a key remains.
pub proof fn lemma_key_exhaustion(n: nat, m: SpongosView, used: nat, k: KeysV)
    requires
        sp_wf(m),
        keys_wf(k),
        used <= pow2(k.height),
    ensures
        wrap_ops_v(sign_ops(n), m, used, k) is Some <==> used + n <= pow2(k.height),
        n > 0 ==> (sizeof_ops_v(sign_ops(n), used, k) is Some <==> used < pow2(k.height)),
    decreases n,
{
    reveal_with_fuel(wrap_ops_v, 2);
    reveal_with_fuel(sizeof_ops_v, 2);
    if n == 0 {
    } else {
        assert(sign_ops(n)[0] == Op::Prim(Prim::MssSign));
        assert(sign_ops(n).skip(1) =~= sign_ops((n - 1) as nat));
        if used < pow2(k.height) {
            let st = wrap_op(Op::Prim(Prim::MssSign), m, used, k).unwrap();
            lemma_commit_wf(m);
            lemma_squeeze_s_wf(sp_commit(m), mss::HASH_SIZE as nat);
            lemma_key_exhaustion((n - 1) as nat, st.1, used + 1, k);
            if (n - 1) as nat > 0 {
            }
            lemma_sizeof_sign_const((n - 1) as nat, used, k);
        }
    }
}

/// The size pass checks the same remaining-key condition at every signing
/// operation, so a signing layout either counts fully or fails at once.
proof fn lemma_sizeof_sign_const(n: nat, used: nat, k: KeysV)
    requires
        used < pow2(k.height),
        k.height <= mss::MAX_HEIGHT,
    ensures
        sizeof_ops_v(sign_ops(n), used, k) is Some,
    decreases n,
{
    reveal_with_fuel(sizeof_ops_v, 2);
    if n > 0 {
        assert(sign_ops(n)[0] == Op::Prim(Prim::MssSign));
        assert(sign_ops(n).skip(1) =~= sign_ops((n - 1) as nat));
        lemma_sizeof_sign_const((n - 1) as nat, used, k);
    }
}

// ---------------------------------------------------------------------------
// External opacity: an external value contributes zero wire trits in every
// pass, while still driving the transcript on both sides.
// ---------------------------------------------------------------------------

/// External opacity: absorbing an external value adds nothing to the size,
/// writes nothing, reads nothing, and still moves both transcripts to the
/// same absorbed state.
pub proof fn lemma_external_opacity(
    t: NTrytes,
    m: SpongosView,
    used: nat,
    k: KeysV,
    w: Seq<u8>,
    c: nat,
)
    ensures
        sizeof_prim(Prim::AbsorbExternal(t), used, k) == Some(0nat),
        wrap_prim(Prim::AbsorbExternal(t), m, used, k) == Some(
            (Seq::<u8>::empty(), sp_absorb_s(m, t@), used),
        ),
        unwrap_prim(Prim::AbsorbExternal(t), w, c, m, k) == Some(
            (Seq::<ValV>::empty(), c, sp_absorb_s(m, t@)),
        ),
{
}

// ---------------------------------------------------------------------------
// Fork isolation: whatever a fork's sub-layout does to its sponge branch,
// the outer transcript continues exactly where it left off.
// ---------------------------------------------------------------------------

/// Fork isolation: two forks with different sub-layouts leave the parent
/// sponge identically — the state after the fork is the state before it, so
/// every later squeeze or mask is unaffected by the fork's interior.
pub proof fn lemma_fork_isolation(
    sub1: Vec<Prim>,
    sub2: Vec<Prim>,
    m: SpongosView,
    used: nat,
    k: KeysV,
)
    ensures
        wrap_op(Op::Fork(sub1), m, used, k) matches Some(st) ==> st.1 == m,
        wrap_op(Op::Fork(sub2), m, used, k) matches Some(st) ==> st.1 == m,
        (wrap_op(Op::Fork(sub1), m, used, k) is Some && wrap_op(Op::Fork(sub2), m, used, k)
            is Some) ==> wrap_op(Op::Fork(sub1), m, used, k).unwrap().1 == wrap_op(
            Op::Fork(sub2),
            m,
            used,
            k,
        ).unwrap().1,
{
}

/// The Trytes size law: a payload of `n` trits (a multiple of 3) always
/// counts as its length prefix plus its content.
pub proof fn lemma_trytes_size_law(t: Trytes, used: nat, k: KeysV)
    requires
        t@.len() % 3 == 0,
    ensures
        sizeof_prim(Prim::AbsorbTrytes(t), used, k) == Some(
            (sizeof_sizet(t@.len() / 3) + t@.len()) as nat,
        ),
{
}

} // verus!
