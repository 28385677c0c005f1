use vstd::prelude::*;
use vstd::arithmetic::power2::pow2;
use crate::trits::trits_wf;
use crate::types::{
    Trint3, Size, Trytes, NTrytes, Mac, enc_trint3, enc_size, dec_trint3, sizeof_sizet,
};
use crate::spongos::{SpongosView, sp_absorb_s, sp_squeeze_s, sp_encrypt_s, sp_decrypt_s, sp_commit};
use crate::mss;
use crate::ntru;
use crate::unwrap::{seg, size_parse_ok, size_digits_at, size_value_at};
use crate::link::resolve_v;

verus! {

// A message layout is written once as a sequence of abstract operations and
// then executed by the three passes.  `Prim` is one primitive operation;
// `Op` adds the structuring forms: a fork that runs a sub-layout on an
// independent sponge branch, a repetition over a sequence of values (the
// count must be wrapped explicitly by the caller beforehand), and a join of
// a previously produced message.

/// One primitive operation of a message layout.
pub enum Prim {
    AbsorbTrint3(Trint3),
    AbsorbSize(Size),
    AbsorbTrytes(Trytes),
    AbsorbNTrytes(NTrytes),
    /// Absorb a value both sides already hold: zero wire trits, but the
    /// transcript takes it in.
    AbsorbExternal(NTrytes),
    MaskTrint3(Trint3),
    MaskNTrytes(NTrytes),
    SkipTrint3(Trint3),
    SkipNTrytes(NTrytes),
    /// Squeeze a tag onto the wire; the reader recomputes and compares.
    SqueezeMac(Mac),
    Commit,
    /// Commit, squeeze an external hash, and sign it with the next one-time
    /// key; only the detachable signature reaches the wire.
    MssSign,
    /// Encapsulate the given secret under the recipient's public key.
    NtruKem(NTrytes),
}

/// One operation of a message layout.
pub enum Op {
    Prim(Prim),
    /// Run a sub-layout against an independent copy of the sponge: the
    /// outer transcript is unaffected, the bytes still reach the wire.
    Fork(Vec<Prim>),
    /// Absorb each of the values in turn; the count is not implicit.
    Repeated(Vec<Trytes>),
    /// Fold in a previously produced message by its link.
    Join(NTrytes),
}

/// The values a reading pass decodes, mathematically, in layout order.
pub ghost enum ValV {
    T3(int),
    Sz(nat),
    Ts(Seq<u8>),
    Nt(Seq<u8>),
    Secret(Seq<u8>),
    Link(Seq<u8>),
}

/// The key material and link store a pass runs against, mathematically: the
/// signer's seed and tree height, the encapsulation key trits, and the
/// stored link commitments.
pub ghost struct KeysV {
    pub seed: Seq<u8>,
    pub height: nat,
    pub ntru: Seq<u8>,
    pub store: Seq<(Seq<u8>, Seq<u8>)>,
}

pub open spec fn keys_wf(k: KeysV) -> bool {
    &&& k.seed.len() == mss::PK_SIZE
    &&& trits_wf(k.seed)
    &&& k.height <= mss::MAX_HEIGHT
    &&& k.ntru.len() == ntru::PK_SIZE
    &&& trits_wf(k.ntru)
    &&& forall|i: int| 0 <= i < k.store.len() ==> trits_wf((#[trigger] k.store[i]).1)
}

pub open spec fn prim_wf(p: Prim) -> bool {
    match p {
        Prim::AbsorbTrint3(v) => v.wf(),
        Prim::AbsorbSize(_) => true,
        Prim::AbsorbTrytes(t) => t.wf() && t@.len() <= usize::MAX,
        Prim::AbsorbNTrytes(t) => t.wf(),
        Prim::AbsorbExternal(t) => t.wf(),
        Prim::MaskTrint3(v) => v.wf(),
        Prim::MaskNTrytes(t) => t.wf(),
        Prim::SkipTrint3(v) => v.wf(),
        Prim::SkipNTrytes(t) => t.wf(),
        Prim::SqueezeMac(_) => true,
        Prim::Commit => true,
        Prim::MssSign => true,
        Prim::NtruKem(t) => t.wf(),
    }
}

pub open spec fn prims_wf(s: Seq<Prim>) -> bool {
    forall|i: int| 0 <= i < s.len() ==> prim_wf(#[trigger] s[i])
}

pub open spec fn op_wf(op: Op) -> bool {
    match op {
        Op::Prim(p) => prim_wf(p),
        Op::Fork(sub) => prims_wf(sub@),
        Op::Repeated(items) => forall|i: int|
            0 <= i < items@.len() ==> (#[trigger] items@[i]).wf() && items@[i]@.len()
                <= usize::MAX,
        Op::Join(l) => l.wf(),
    }
}

pub open spec fn ops_wf(s: Seq<Op>) -> bool {
    forall|i: int| 0 <= i < s.len() ==> op_wf(#[trigger] s[i])
}

pub open spec fn rep_prims(items: Seq<Trytes>) -> Seq<Prim> {
    items.map_values(|t: Trytes| Prim::AbsorbTrytes(t))
}

// ---------------------------------------------------------------------------
// The size-counting pass, mathematically.  `used` is the number of one-time
// keys already consumed; counting does not consume any.
// ---------------------------------------------------------------------------

pub open spec fn sizeof_prim(p: Prim, used: nat, k: KeysV) -> Option<nat> {
    match p {
        Prim::AbsorbTrint3(_) => Some(3nat),
        Prim::AbsorbSize(s) => Some(sizeof_sizet(s.0 as nat)),
        Prim::AbsorbTrytes(t) => if t@.len() % 3 == 0 {
            Some(sizeof_sizet(t@.len() / 3) + t@.len())
        } else {
            None
        },
        Prim::AbsorbNTrytes(t) => if t@.len() % 3 == 0 {
            Some(t@.len())
        } else {
            None
        },
        Prim::AbsorbExternal(_) => Some(0nat),
        Prim::MaskTrint3(_) => Some(3nat),
        Prim::MaskNTrytes(t) => if t@.len() % 3 == 0 {
            Some(t@.len())
        } else {
            None
        },
        Prim::SkipTrint3(_) => Some(3nat),
        Prim::SkipNTrytes(t) => if t@.len() % 3 == 0 {
            Some(t@.len())
        } else {
            None
        },
        Prim::SqueezeMac(mac) => if mac.0 % 3 == 0 {
            Some(mac.0 as nat)
        } else {
            None
        },
        Prim::Commit => Some(0nat),
        Prim::MssSign => if used < pow2(k.height) {
            Some(mss::sig_size_v(k.height))
        } else {
            None
        },
        Prim::NtruKem(s) => if s@.len() == ntru::KEY_SIZE {
            Some(ntru::EKEY_SIZE as nat)
        } else {
            None
        },
    }
}

pub open spec fn sizeof_prims(s: Seq<Prim>, used: nat, k: KeysV) -> Option<nat>
    decreases s.len(),
{
    if s.len() == 0 {
        Some(0nat)
    } else {
        match sizeof_prim(s[0], used, k) {
            None => None,
            Some(d) => match sizeof_prims(s.skip(1), used, k) {
                None => None,
                Some(rest) => Some(d + rest),
            },
        }
    }
}

pub open spec fn sizeof_op(op: Op, used: nat, k: KeysV) -> Option<nat> {
    match op {
        Op::Prim(p) => sizeof_prim(p, used, k),
        Op::Fork(sub) => sizeof_prims(sub@, used, k),
        Op::Repeated(items) => sizeof_prims(rep_prims(items@), used, k),
        Op::Join(l) => if l@.len() % 3 == 0 {
            Some(l@.len())
        } else {
            None
        },
    }
}

pub open spec fn sizeof_ops_v(s: Seq<Op>, used: nat, k: KeysV) -> Option<nat>
    decreases s.len(),
{
    if s.len() == 0 {
        Some(0nat)
    } else {
        match sizeof_op(s[0], used, k) {
            None => None,
            Some(d) => match sizeof_ops_v(s.skip(1), used, k) {
                None => None,
                Some(rest) => Some(d + rest),
            },
        }
    }
}

// ---------------------------------------------------------------------------
// The writing pass, mathematically: the trits it emits, the sponge it ends
// with, and the keys consumed.
// ---------------------------------------------------------------------------

pub open spec fn wrap_prim(p: Prim, m: SpongosView, used: nat, k: KeysV) -> Option<
    (Seq<u8>, SpongosView, nat),
> {
    match p {
        Prim::AbsorbTrint3(v) => Some(
            (enc_trint3(v.0 as int), sp_absorb_s(m, enc_trint3(v.0 as int)), used),
        ),
        Prim::AbsorbSize(s) => Some(
            (enc_size(s.0 as nat), sp_absorb_s(m, enc_size(s.0 as nat)), used),
        ),
        Prim::AbsorbTrytes(t) => if t@.len() % 3 == 0 {
            Some(
                (
                    enc_size(t@.len() / 3) + t@,
                    sp_absorb_s(m, enc_size(t@.len() / 3) + t@),
                    used,
                ),
            )
        } else {
            None
        },
        Prim::AbsorbNTrytes(t) => if t@.len() % 3 == 0 {
            Some((t@, sp_absorb_s(m, t@), used))
        } else {
            None
        },
        Prim::AbsorbExternal(t) => Some((Seq::empty(), sp_absorb_s(m, t@), used)),
        Prim::MaskTrint3(v) => Some(
            (
                sp_encrypt_s(m, enc_trint3(v.0 as int)).0,
                sp_encrypt_s(m, enc_trint3(v.0 as int)).1,
                used,
            ),
        ),
        Prim::MaskNTrytes(t) => if t@.len() % 3 == 0 {
            Some((sp_encrypt_s(m, t@).0, sp_encrypt_s(m, t@).1, used))
        } else {
            None
        },
        Prim::SkipTrint3(v) => Some((enc_trint3(v.0 as int), m, used)),
        Prim::SkipNTrytes(t) => if t@.len() % 3 == 0 {
            Some((t@, m, used))
        } else {
            None
        },
        Prim::SqueezeMac(mac) => if mac.0 % 3 == 0 {
            Some(
                (
                    sp_squeeze_s(m, mac.0 as nat).0,
                    sp_squeeze_s(m, mac.0 as nat).1,
                    used,
                ),
            )
        } else {
            None
        },
        Prim::Commit => Some((Seq::empty(), sp_commit(m), used)),
        Prim::MssSign => if used < pow2(k.height) {
            Some(
                (
                    mss::sig_v(
                        k.seed,
                        k.height,
                        used,
                        sp_squeeze_s(sp_commit(m), mss::HASH_SIZE as nat).0,
                    ),
                    sp_squeeze_s(sp_commit(m), mss::HASH_SIZE as nat).1,
                    used + 1,
                ),
            )
        } else {
            None
        },
        Prim::NtruKem(s) => if s@.len() == ntru::KEY_SIZE {
            Some((ntru::encap_v(k.ntru, s@), m, used))
        } else {
            None
        },
    }
}

pub open spec fn wrap_prims(s: Seq<Prim>, m: SpongosView, used: nat, k: KeysV) -> Option<
    (Seq<u8>, SpongosView, nat),
>
    decreases s.len(),
{
    if s.len() == 0 {
        Some((Seq::empty(), m, used))
    } else {
        match wrap_prim(s[0], m, used, k) {
            None => None,
            Some(step) => match wrap_prims(s.skip(1), step.1, step.2, k) {
                None => None,
                Some(rest) => Some((step.0 + rest.0, rest.1, rest.2)),
            },
        }
    }
}

pub open spec fn wrap_op(op: Op, m: SpongosView, used: nat, k: KeysV) -> Option<
    (Seq<u8>, SpongosView, nat),
> {
    match op {
        Op::Prim(p) => wrap_prim(p, m, used, k),
        Op::Fork(sub) => match wrap_prims(sub@, m, used, k) {
            None => None,
            Some(inner) => Some((inner.0, m, inner.2)),
        },
        Op::Repeated(items) => wrap_prims(rep_prims(items@), m, used, k),
        Op::Join(l) => if l@.len() % 3 == 0 && resolve_v(k.store, l@) is Some {
            Some((l@, sp_absorb_s(m, resolve_v(k.store, l@).unwrap()), used))
        } else {
            None
        },
    }
}

pub open spec fn wrap_ops_v(s: Seq<Op>, m: SpongosView, used: nat, k: KeysV) -> Option<
    (Seq<u8>, SpongosView, nat),
>
    decreases s.len(),
{
    if s.len() == 0 {
        Some((Seq::empty(), m, used))
    } else {
        match wrap_op(s[0], m, used, k) {
            None => None,
            Some(step) => match wrap_ops_v(s.skip(1), step.1, step.2, k) {
                None => None,
                Some(rest) => Some((step.0 + rest.0, rest.1, rest.2)),
            },
        }
    }
}

// ---------------------------------------------------------------------------
// The reading pass, mathematically: the values it decodes, the cursor it
// reaches, and the sponge it ends with.  The signer's commitment is the
// seed and the decapsulation key carries the same trits as the public one.
// ---------------------------------------------------------------------------

pub open spec fn unwrap_prim(p: Prim, w: Seq<u8>, c: nat, m: SpongosView, k: KeysV) -> Option<
    (Seq<ValV>, nat, SpongosView),
> {
    match p {
        Prim::AbsorbTrint3(_) => if c + 3 <= w.len() {
            Some(
                (
                    seq![ValV::T3(dec_trint3(seg(w, c, 3)))],
                    c + 3,
                    sp_absorb_s(m, seg(w, c, 3)),
                ),
            )
        } else {
            None
        },
        Prim::AbsorbSize(_) => if size_parse_ok(w, c) {
            Some(
                (
                    seq![ValV::Sz(size_value_at(w, c))],
                    c + 3 + 3 * size_digits_at(w, c),
                    sp_absorb_s(m, seg(w, c, 3 + 3 * size_digits_at(w, c))),
                ),
            )
        } else {
            None
        },
        Prim::AbsorbTrytes(_) => if size_parse_ok(w, c) && c + 3 + 3 * size_digits_at(w, c) + 3
            * size_value_at(w, c) <= w.len() {
            Some(
                (
                    seq![
                        ValV::Ts(
                            seg(w, c + 3 + 3 * size_digits_at(w, c), 3 * size_value_at(w, c)),
                        ),
                    ],
                    c + 3 + 3 * size_digits_at(w, c) + 3 * size_value_at(w, c),
                    sp_absorb_s(
                        sp_absorb_s(m, seg(w, c, 3 + 3 * size_digits_at(w, c))),
                        seg(w, c + 3 + 3 * size_digits_at(w, c), 3 * size_value_at(w, c)),
                    ),
                ),
            )
        } else {
            None
        },
        Prim::AbsorbNTrytes(t) => if t@.len() % 3 == 0 && c + t@.len() <= w.len() {
            Some(
                (
                    seq![ValV::Nt(seg(w, c, t@.len()))],
                    c + t@.len(),
                    sp_absorb_s(m, seg(w, c, t@.len())),
                ),
            )
        } else {
            None
        },
        Prim::AbsorbExternal(t) => Some((Seq::empty(), c, sp_absorb_s(m, t@))),
        Prim::MaskTrint3(_) => if c + 3 <= w.len() {
            Some(
                (
                    seq![ValV::T3(dec_trint3(sp_decrypt_s(m, seg(w, c, 3)).0))],
                    c + 3,
                    sp_decrypt_s(m, seg(w, c, 3)).1,
                ),
            )
        } else {
            None
        },
        Prim::MaskNTrytes(t) => if t@.len() % 3 == 0 && c + t@.len() <= w.len() {
            Some(
                (
                    seq![ValV::Nt(sp_decrypt_s(m, seg(w, c, t@.len())).0)],
                    c + t@.len(),
                    sp_decrypt_s(m, seg(w, c, t@.len())).1,
                ),
            )
        } else {
            None
        },
        Prim::SkipTrint3(_) => if c + 3 <= w.len() {
            Some((seq![ValV::T3(dec_trint3(seg(w, c, 3)))], c + 3, m))
        } else {
            None
        },
        Prim::SkipNTrytes(t) => if t@.len() % 3 == 0 && c + t@.len() <= w.len() {
            Some((seq![ValV::Nt(seg(w, c, t@.len()))], c + t@.len(), m))
        } else {
            None
        },
        Prim::SqueezeMac(mac) => if mac.0 % 3 == 0 && c + mac.0 <= w.len() && seg(
            w,
            c,
            mac.0 as nat,
        ) == sp_squeeze_s(m, mac.0 as nat).0 {
            Some((Seq::empty(), (c + mac.0) as nat, sp_squeeze_s(m, mac.0 as nat).1))
        } else {
            None
        },
        Prim::Commit => Some((Seq::empty(), c, sp_commit(m))),
        Prim::MssSign => if c + mss::sig_size_v(k.height) <= w.len() && mss::sig_ok(
            k.seed,
            k.height,
            sp_squeeze_s(sp_commit(m), mss::HASH_SIZE as nat).0,
            seg(w, c, mss::sig_size_v(k.height)),
        ) {
            Some(
                (
                    Seq::empty(),
                    c + mss::sig_size_v(k.height),
                    sp_squeeze_s(sp_commit(m), mss::HASH_SIZE as nat).1,
                ),
            )
        } else {
            None
        },
        Prim::NtruKem(_) => if c + ntru::EKEY_SIZE <= w.len() {
            Some(
                (
                    seq![ValV::Secret(ntru::decap_v(k.ntru, seg(w, c, ntru::EKEY_SIZE as nat)))],
                    (c + ntru::EKEY_SIZE) as nat,
                    m,
                ),
            )
        } else {
            None
        },
    }
}

pub open spec fn unwrap_prims(s: Seq<Prim>, w: Seq<u8>, c: nat, m: SpongosView, k: KeysV) -> Option<
    (Seq<ValV>, nat, SpongosView),
>
    decreases s.len(),
{
    if s.len() == 0 {
        Some((Seq::empty(), c, m))
    } else {
        match unwrap_prim(s[0], w, c, m, k) {
            None => None,
            Some(step) => match unwrap_prims(s.skip(1), w, step.1, step.2, k) {
                None => None,
                Some(rest) => Some((step.0 + rest.0, rest.1, rest.2)),
            },
        }
    }
}

pub open spec fn unwrap_op(op: Op, w: Seq<u8>, c: nat, m: SpongosView, k: KeysV) -> Option<
    (Seq<ValV>, nat, SpongosView),
> {
    match op {
        Op::Prim(p) => unwrap_prim(p, w, c, m, k),
        Op::Fork(sub) => match unwrap_prims(sub@, w, c, m, k) {
            None => None,
            Some(inner) => Some((inner.0, inner.1, m)),
        },
        Op::Repeated(items) => unwrap_prims(rep_prims(items@), w, c, m, k),
        Op::Join(l) => if l@.len() % 3 == 0 && c + l@.len() <= w.len() && resolve_v(
            k.store,
            seg(w, c, l@.len()),
        ) is Some {
            Some(
                (
                    seq![ValV::Link(seg(w, c, l@.len()))],
                    c + l@.len(),
                    sp_absorb_s(m, resolve_v(k.store, seg(w, c, l@.len())).unwrap()),
                ),
            )
        } else {
            None
        },
    }
}

pub open spec fn unwrap_ops_v(s: Seq<Op>, w: Seq<u8>, c: nat, m: SpongosView, k: KeysV) -> Option<
    (Seq<ValV>, nat, SpongosView),
>
    decreases s.len(),
{
    if s.len() == 0 {
        Some((Seq::empty(), c, m))
    } else {
        match unwrap_op(s[0], w, c, m, k) {
            None => None,
            Some(step) => match unwrap_ops_v(s.skip(1), w, step.1, step.2, k) {
                None => None,
                Some(rest) => Some((step.0 + rest.0, rest.1, rest.2)),
            },
        }
    }
}

// ---------------------------------------------------------------------------
// The values the reader is owed: the cleartext contents of the layout.
// ---------------------------------------------------------------------------

pub open spec fn expected_vals_prim(p: Prim) -> Seq<ValV> {
    match p {
        Prim::AbsorbTrint3(v) => seq![ValV::T3(v.0 as int)],
        Prim::AbsorbSize(s) => seq![ValV::Sz(s.0 as nat)],
        Prim::AbsorbTrytes(t) => seq![ValV::Ts(t@)],
        Prim::AbsorbNTrytes(t) => seq![ValV::Nt(t@)],
        Prim::AbsorbExternal(_) => Seq::empty(),
        Prim::MaskTrint3(v) => seq![ValV::T3(v.0 as int)],
        Prim::MaskNTrytes(t) => seq![ValV::Nt(t@)],
        Prim::SkipTrint3(v) => seq![ValV::T3(v.0 as int)],
        Prim::SkipNTrytes(t) => seq![ValV::Nt(t@)],
        Prim::SqueezeMac(_) => Seq::empty(),
        Prim::Commit => Seq::empty(),
        Prim::MssSign => Seq::empty(),
        Prim::NtruKem(s) => seq![ValV::Secret(s@)],
    }
}

pub open spec fn expected_vals_prims(s: Seq<Prim>) -> Seq<ValV>
    decreases s.len(),
{
    if s.len() == 0 {
        Seq::empty()
    } else {
        expected_vals_prim(s[0]) + expected_vals_prims(s.skip(1))
    }
}

pub open spec fn expected_vals_op(op: Op) -> Seq<ValV> {
    match op {
        Op::Prim(p) => expected_vals_prim(p),
        Op::Fork(sub) => expected_vals_prims(sub@),
        Op::Repeated(items) => expected_vals_prims(rep_prims(items@)),
        Op::Join(l) => seq![ValV::Link(l@)],
    }
}

pub open spec fn expected_vals_ops(s: Seq<Op>) -> Seq<ValV>
    decreases s.len(),
{
    if s.len() == 0 {
        Seq::empty()
    } else {
        expected_vals_op(s[0]) + expected_vals_ops(s.skip(1))
    }
}

/// The environment one layout execution runs against: the signer's tree,
/// the recipient's encapsulation key, and the link store.
pub open spec fn keys_of(
    seed: Seq<u8>,
    height: nat,
    ntru: Seq<u8>,
    store: Seq<(Seq<u8>, Seq<u8>)>,
) -> KeysV {
    KeysV { seed, height, ntru, store }
}

// ---------------------------------------------------------------------------
// Executing one layout with the three context types.
// ---------------------------------------------------------------------------

/// Runs the size pass over one primitive.
fn sizeof_prim_run(
    ctx: &mut crate::sizeof::Context,
    p: &Prim,
    sk: &crate::mss::PrivateKey,
    ntru_pk: &crate::ntru::PublicKey,
) -> (r: Result<(), crate::errors::Error>)
    requires
        prim_wf(*p),
        sk.wf(),
        ntru_pk.wf(),
    ensures
        ({
            let k = keys_of(sk.seed@, sk.height as nat, ntru_pk.trits@, Seq::empty());
            let model = sizeof_prim(*p, sk.used as nat, k);
            &&& (model is Some && old(ctx).size + model.unwrap() <= usize::MAX ==> r is Ok
                && final(ctx).size == old(ctx).size + model.unwrap())
            &&& (model is None ==> r is Err && *final(ctx) == *old(ctx))
            &&& (model is Some && old(ctx).size + model.unwrap() > usize::MAX ==> r == Err::<
                (),
                crate::errors::Error,
            >(crate::errors::Error::SizeOverflow) && *final(ctx) == *old(ctx))
        }),
{
    match p {
        Prim::AbsorbTrint3(v) => ctx.absorb_trint3(v),
        Prim::AbsorbSize(s) => ctx.absorb_size(s),
        Prim::AbsorbTrytes(t) => ctx.absorb_trytes(t),
        Prim::AbsorbNTrytes(t) => ctx.absorb_ntrytes(t),
        Prim::AbsorbExternal(t) => {
            let ext = crate::types::External(NTrytes(t.0.duplicate()));
            ctx.absorb_external_ntrytes(&ext)
        },
        Prim::MaskTrint3(v) => ctx.mask_trint3(v),
        Prim::MaskNTrytes(t) => ctx.mask_ntrytes(t),
        Prim::SkipTrint3(v) => ctx.skip_trint3(v),
        Prim::SkipNTrytes(t) => ctx.skip_ntrytes(t),
        Prim::SqueezeMac(mac) => ctx.squeeze_mac(mac),
        Prim::Commit => ctx.commit(),
        Prim::MssSign => {
            let _ = ctx.commit();
            ctx.mssig_prehashed(sk, crate::types::MssHashSig)
        },
        Prim::NtruKem(s) => ctx.ntrukem(ntru_pk, s),
    }
}

/// Runs the size pass over a sub-layout of primitives.
pub fn sizeof_prims_run(
    ctx: &mut crate::sizeof::Context,
    prims: &Vec<Prim>,
    sk: &crate::mss::PrivateKey,
    ntru_pk: &crate::ntru::PublicKey,
) -> (r: Result<(), crate::errors::Error>)
    requires
        prims_wf(prims@),
        sk.wf(),
        ntru_pk.wf(),
    ensures
        ({
            let k = keys_of(sk.seed@, sk.height as nat, ntru_pk.trits@, Seq::empty());
            let model = sizeof_prims(prims@, sk.used as nat, k);
            &&& (model is Some && old(ctx).size + model.unwrap() <= usize::MAX ==> r is Ok
                && final(ctx).size == old(ctx).size + model.unwrap())
            &&& (model is None ==> r is Err)
            &&& (model is Some && old(ctx).size + model.unwrap() > usize::MAX ==> r == Err::<
                (),
                crate::errors::Error,
            >(crate::errors::Error::SizeOverflow))
        }),
{
    let ghost k = keys_of(sk.seed@, sk.height as nat, ntru_pk.trits@, Seq::empty());
    let ghost u0 = sk.used as nat;
    let ghost size0 = old(ctx).size as nat;
    let ghost total = sizeof_prims(prims@, u0, k);
    let mut i: usize = 0;
    proof {
        assert(prims@.skip(0) =~= prims@);
    }
    while i < prims.len()
        invariant
            i <= prims@.len(),
            prims_wf(prims@),
            sk.wf(),
            ntru_pk.wf(),
            k == keys_of(sk.seed@, sk.height as nat, ntru_pk.trits@, Seq::<(Seq<u8>, Seq<u8>)>::empty()),
            u0 == sk.used as nat,
            total == sizeof_prims(prims@, u0, k),
            size0 == old(ctx).size as nat,
            size0 <= ctx.size,
            match sizeof_prims(prims@.skip(i as int), u0, k) {
                None => total is None,
                Some(rest) => total == Some((ctx.size - size0 + rest) as nat),
            },
        decreases prims@.len() - i,
    {
        proof {
            assert(prims@.skip(i as int)[0] == prims@[i as int]);
            assert(prims@.skip(i as int).skip(1) =~= prims@.skip(i + 1));
        }
        let r = sizeof_prim_run(ctx, &prims[i], sk, ntru_pk);
        if r.is_err() {
            proof {
                let model = sizeof_prim(prims@[i as int], u0, k);
                match sizeof_prims(prims@.skip(i as int), u0, k) {
                    None => {
                        assert(total is None);
                    },
                    Some(rest) => {
                        assert(model is Some);
                        assert(ctx.size + model.unwrap() > usize::MAX);
                        assert(rest >= model.unwrap());
                        assert(size0 + total.unwrap() > usize::MAX);
                    },
                }
            }
            return r;
        }
        i = i + 1;
    }
    proof {
        assert(prims@.skip(prims@.len() as int) =~= Seq::<Prim>::empty());
    }
    Ok(())
}

/// Runs the size pass over a whole layout: the exact trit total the writing
/// pass will emit for the same layout and values.
pub fn sizeof_ops_run(
    ctx: &mut crate::sizeof::Context,
    ops: &Vec<Op>,
    sk: &crate::mss::PrivateKey,
    ntru_pk: &crate::ntru::PublicKey,
    store: &crate::link::LinkStore,
) -> (r: Result<(), crate::errors::Error>)
    requires
        ops_wf(ops@),
        sk.wf(),
        ntru_pk.wf(),
        store.wf(),
    ensures
        ({
            let k = keys_of(sk.seed@, sk.height as nat, ntru_pk.trits@, Seq::empty());
            let model = sizeof_ops_v(ops@, sk.used as nat, k);
            &&& (model is Some && old(ctx).size + model.unwrap() <= usize::MAX ==> r is Ok
                && final(ctx).size == old(ctx).size + model.unwrap())
            &&& (model is None ==> r is Err)
            &&& (model is Some && old(ctx).size + model.unwrap() > usize::MAX ==> r == Err::<
                (),
                crate::errors::Error,
            >(crate::errors::Error::SizeOverflow))
        }),
{
    let ghost k = keys_of(sk.seed@, sk.height as nat, ntru_pk.trits@, Seq::empty());
    let ghost u0 = sk.used as nat;
    let ghost size0 = old(ctx).size as nat;
    let ghost total = sizeof_ops_v(ops@, u0, k);
    let mut i: usize = 0;
    proof {
        assert(ops@.skip(0) =~= ops@);
    }
    while i < ops.len()
        invariant
            i <= ops@.len(),
            ops_wf(ops@),
            sk.wf(),
            ntru_pk.wf(),
            store.wf(),
            k == keys_of(sk.seed@, sk.height as nat, ntru_pk.trits@, Seq::<(Seq<u8>, Seq<u8>)>::empty()),
            u0 == sk.used as nat,
            total == sizeof_ops_v(ops@, u0, k),
            size0 == old(ctx).size as nat,
            size0 <= ctx.size,
            match sizeof_ops_v(ops@.skip(i as int), u0, k) {
                None => total is None,
                Some(rest) => total == Some((ctx.size - size0 + rest) as nat),
            },
        decreases ops@.len() - i,
    {
        proof {
            assert(ops@.skip(i as int)[0] == ops@[i as int]);
            assert(ops@.skip(i as int).skip(1) =~= ops@.skip(i + 1));
        }
        let ghost szpre = ctx.size as nat;
        let step: Result<(), crate::errors::Error> = match &ops[i] {
            Op::Prim(p) => sizeof_prim_run(ctx, p, sk, ntru_pk),
            Op::Fork(sub) => sizeof_prims_run(ctx, sub, sk, ntru_pk),
            Op::Repeated(items) => sizeof_rep_run(ctx, items, sk, ntru_pk),
            Op::Join(l) => ctx.join(store, l),
        };
        if step.is_err() {
            proof {
                let model = sizeof_op(ops@[i as int], u0, k);
                match sizeof_ops_v(ops@.skip(i as int), u0, k) {
                    None => {
                        assert(total is None);
                    },
                    Some(rest) => {
                        assert(model is Some);
                        assert(szpre + model.unwrap() > usize::MAX);
                        assert(rest >= model.unwrap());
                        assert(size0 + total.unwrap() > usize::MAX);
                    },
                }
            }
            return step;
        }
        i = i + 1;
    }
    proof {
        assert(ops@.skip(ops@.len() as int) =~= Seq::<Op>::empty());
    }
    Ok(())
}

/// Counts a repetition: each value is absorbed in turn.
fn sizeof_rep_run(
    ctx: &mut crate::sizeof::Context,
    items: &Vec<Trytes>,
    sk: &crate::mss::PrivateKey,
    ntru_pk: &crate::ntru::PublicKey,
) -> (r: Result<(), crate::errors::Error>)
    requires
        forall|i: int| 0 <= i < items@.len() ==> (#[trigger] items@[i]).wf(),
    ensures
        ({
            let k = keys_of(sk.seed@, sk.height as nat, ntru_pk.trits@, Seq::empty());
            let model = sizeof_prims(rep_prims(items@), sk.used as nat, k);
            &&& (model is Some && old(ctx).size + model.unwrap() <= usize::MAX ==> r is Ok
                && final(ctx).size == old(ctx).size + model.unwrap())
            &&& (model is None ==> r is Err)
            &&& (model is Some && old(ctx).size + model.unwrap() > usize::MAX ==> r == Err::<
                (),
                crate::errors::Error,
            >(crate::errors::Error::SizeOverflow))
        }),
{
    let ghost u0: nat = sk.used as nat;
    let ghost k = keys_of(sk.seed@, sk.height as nat, ntru_pk.trits@, Seq::empty());
    let ghost size0 = old(ctx).size as nat;
    let ghost total = sizeof_prims(rep_prims(items@), u0, k);
    let mut i: usize = 0;
    proof {
        assert(rep_prims(items@).skip(0) =~= rep_prims(items@));
    }
    while i < items.len()
        invariant
            i <= items@.len(),
            forall|q: int| 0 <= q < items@.len() ==> (#[trigger] items@[q]).wf(),
            u0 == sk.used as nat,
            k == keys_of(sk.seed@, sk.height as nat, ntru_pk.trits@, Seq::<(Seq<u8>, Seq<u8>)>::empty()),
            total == sizeof_prims(rep_prims(items@), u0, k),
            size0 == old(ctx).size as nat,
            size0 <= ctx.size,
            match sizeof_prims(rep_prims(items@).skip(i as int), u0, k) {
                None => total is None,
                Some(rest) => total == Some((ctx.size - size0 + rest) as nat),
            },
        decreases items@.len() - i,
    {
        proof {
            assert(rep_prims(items@)[i as int] == Prim::AbsorbTrytes(items@[i as int]));
            assert(rep_prims(items@).skip(i as int)[0] == rep_prims(items@)[i as int]);
            assert(rep_prims(items@).skip(i as int).skip(1) =~= rep_prims(items@).skip(i + 1));
        }
        let r = ctx.absorb_trytes(&items[i]);
        if r.is_err() {
            proof {
                let model = sizeof_prim(rep_prims(items@)[i as int], u0, k);
                match sizeof_prims(rep_prims(items@).skip(i as int), u0, k) {
                    None => {
                        assert(total is None);
                    },
                    Some(rest) => {
                        assert(model is Some);
                        assert(ctx.size + model.unwrap() > usize::MAX);
                        assert(rest >= model.unwrap());
                        assert(size0 + total.unwrap() > usize::MAX);
                    },
                }
            }
            return r;
        }
        i = i + 1;
    }
    proof {
        assert(rep_prims(items@).skip(rep_prims(items@).len() as int) =~= Seq::<Prim>::empty());
    }
    Ok(())
}

/// Runs the writing pass over one primitive.
fn wrap_prim_run(
    ctx: &mut crate::wrap::Context,
    p: &Prim,
    sk: &mut crate::mss::PrivateKey,
    ntru_pk: &crate::ntru::PublicKey,
    store: &crate::link::LinkStore,
) -> (r: Result<(), crate::errors::Error>)
    requires
        old(ctx).wf(),
        prim_wf(*p),
        old(sk).wf(),
        ntru_pk.wf(),
    ensures
        final(ctx).wf(),
        final(sk).wf(),
        final(sk).seed@ == old(sk).seed@,
        final(sk).height == old(sk).height,
        ({
            let k = keys_of(old(sk).seed@, old(sk).height as nat, ntru_pk.trits@, store@);
            let model = wrap_prim(*p, old(ctx).sponge@, old(sk).used as nat, k);
            &&& (r is Ok <==> model is Some)
            &&& (model matches Some(st) ==> r is Ok && final(ctx).buf@ == old(ctx).buf@ + st.0
                && final(ctx).sponge@ == st.1 && final(sk).used == st.2)
        }),
{
    match p {
        Prim::AbsorbTrint3(v) => ctx.absorb_trint3(v),
        Prim::AbsorbSize(s) => ctx.absorb_size(s),
        Prim::AbsorbTrytes(t) => ctx.absorb_trytes(t),
        Prim::AbsorbNTrytes(t) => ctx.absorb_ntrytes(t),
        Prim::AbsorbExternal(t) => {
            let ext = crate::types::External(NTrytes(t.0.duplicate()));
            ctx.absorb_external_ntrytes(&ext)
        },
        Prim::MaskTrint3(v) => ctx.mask_trint3(v),
        Prim::MaskNTrytes(t) => ctx.mask_ntrytes(t),
        Prim::SkipTrint3(v) => ctx.skip_trint3(v),
        Prim::SkipNTrytes(t) => ctx.skip_ntrytes(t),
        Prim::SqueezeMac(mac) => ctx.squeeze_mac(mac),
        Prim::Commit => ctx.commit(),
        Prim::MssSign => {
            let _ = ctx.commit();
            let h = ctx.squeeze_external_ntrytes(crate::mss::HASH_SIZE);
            ctx.mssig(sk, &crate::types::External(h))
        },
        Prim::NtruKem(s) => ctx.ntrukem(ntru_pk, s),
    }
}

/// Runs the writing pass over a sub-layout of primitives.
pub fn wrap_prims_run(
    ctx: &mut crate::wrap::Context,
    prims: &Vec<Prim>,
    sk: &mut crate::mss::PrivateKey,
    ntru_pk: &crate::ntru::PublicKey,
    store: &crate::link::LinkStore,
) -> (r: Result<(), crate::errors::Error>)
    requires
        old(ctx).wf(),
        prims_wf(prims@),
        old(sk).wf(),
        ntru_pk.wf(),
    ensures
        final(ctx).wf(),
        final(sk).wf(),
        final(sk).seed@ == old(sk).seed@,
        final(sk).height == old(sk).height,
        ({
            let k = keys_of(old(sk).seed@, old(sk).height as nat, ntru_pk.trits@, store@);
            let model = wrap_prims(prims@, old(ctx).sponge@, old(sk).used as nat, k);
            &&& (r is Ok <==> model is Some)
            &&& (model matches Some(st) ==> r is Ok && final(ctx).buf@ == old(ctx).buf@ + st.0
                && final(ctx).sponge@ == st.1 && final(sk).used == st.2)
        }),
{
    let ghost k = keys_of(old(sk).seed@, old(sk).height as nat, ntru_pk.trits@, store@);
    let ghost buf0 = old(ctx).buf@;
    let ghost total = wrap_prims(prims@, old(ctx).sponge@, old(sk).used as nat, k);
    let mut i: usize = 0;
    proof {
        assert(prims@.skip(0) =~= prims@);
        assert(ctx.buf@.skip(buf0.len() as int) =~= Seq::<u8>::empty());
        assert(buf0 + Seq::<u8>::empty() =~= buf0);
    }
    while i < prims.len()
        invariant
            i <= prims@.len(),
            prims_wf(prims@),
            ntru_pk.wf(),
            ctx.wf(),
            sk.wf(),
            sk.seed@ == old(sk).seed@,
            sk.height == old(sk).height,
            k == keys_of(old(sk).seed@, old(sk).height as nat, ntru_pk.trits@, store@),
            buf0 == old(ctx).buf@,
            total == wrap_prims(prims@, old(ctx).sponge@, old(sk).used as nat, k),
            buf0.len() <= ctx.buf@.len(),
            ctx.buf@.take(buf0.len() as int) == buf0,
            match wrap_prims(prims@.skip(i as int), ctx.sponge@, sk.used as nat, k) {
                None => total is None,
                Some(rest) => total == Some(
                    (ctx.buf@.skip(buf0.len() as int) + rest.0, rest.1, rest.2),
                ),
            },
        decreases prims@.len() - i,
    {
        proof {
            assert(prims@.skip(i as int)[0] == prims@[i as int]);
            assert(prims@.skip(i as int).skip(1) =~= prims@.skip(i + 1));
        }
        let ghost pre_buf = ctx.buf@;
        let ghost done = ctx.buf@.skip(buf0.len() as int);
        let ghost m_pre = ctx.sponge@;
        let ghost u_pre = sk.used as nat;
        let r = wrap_prim_run(ctx, &prims[i], sk, ntru_pk, store);
        if r.is_err() {
            return r;
        }
        proof {
            let st = wrap_prim(prims@[i as int], m_pre, u_pre, k).unwrap();
            assert(ctx.buf@ == pre_buf + st.0);
            assert(ctx.buf@.take(buf0.len() as int) =~= buf0);
            assert(ctx.buf@.skip(buf0.len() as int) =~= done + st.0);
            match wrap_prims(prims@.skip(i + 1), ctx.sponge@, sk.used as nat, k) {
                None => {},
                Some(rest) => {
                    assert((done + st.0) + rest.0 =~= done + (st.0 + rest.0));
                },
            }
        }
        i = i + 1;
    }
    proof {
        assert(prims@.skip(prims@.len() as int) =~= Seq::<Prim>::empty());
        assert(ctx.buf@ =~= buf0 + ctx.buf@.skip(buf0.len() as int));
        match wrap_prims(prims@, old(ctx).sponge@, old(sk).used as nat, k) {
            None => {},
            Some(st) => {
                assert(ctx.buf@.skip(buf0.len() as int) + Seq::<u8>::empty() =~= ctx.buf@.skip(
                    buf0.len() as int,
                ));
            },
        }
    }
    Ok(())
}

/// Writes a repetition: each value is absorbed in turn.
fn wrap_rep_run(
    ctx: &mut crate::wrap::Context,
    items: &Vec<Trytes>,
    sk: &crate::mss::PrivateKey,
    ntru_pk: &crate::ntru::PublicKey,
    store: &crate::link::LinkStore,
) -> (r: Result<(), crate::errors::Error>)
    requires
        old(ctx).wf(),
        forall|i: int|
            0 <= i < items@.len() ==> (#[trigger] items@[i]).wf() && items@[i]@.len()
                <= usize::MAX,
        sk.wf(),
        ntru_pk.wf(),
    ensures
        final(ctx).wf(),
        ({
            let k = keys_of(sk.seed@, sk.height as nat, ntru_pk.trits@, store@);
            let model = wrap_prims(rep_prims(items@), old(ctx).sponge@, sk.used as nat, k);
            &&& (r is Ok <==> model is Some)
            &&& (model matches Some(st) ==> r is Ok && final(ctx).buf@ == old(ctx).buf@ + st.0
                && final(ctx).sponge@ == st.1 && st.2 == sk.used)
        }),
{
    let ghost k = keys_of(sk.seed@, sk.height as nat, ntru_pk.trits@, store@);
    let ghost buf0 = old(ctx).buf@;
    let ghost total = wrap_prims(rep_prims(items@), old(ctx).sponge@, sk.used as nat, k);
    let mut i: usize = 0;
    proof {
        assert(rep_prims(items@).skip(0) =~= rep_prims(items@));
        assert(ctx.buf@.skip(buf0.len() as int) =~= Seq::<u8>::empty());
    }
    while i < items.len()
        invariant
            i <= items@.len(),
            forall|q: int|
                0 <= q < items@.len() ==> (#[trigger] items@[q]).wf() && items@[q]@.len()
                    <= usize::MAX,
            ctx.wf(),
            k == keys_of(sk.seed@, sk.height as nat, ntru_pk.trits@, store@),
            buf0 == old(ctx).buf@,
            total == wrap_prims(rep_prims(items@), old(ctx).sponge@, sk.used as nat, k),
            buf0.len() <= ctx.buf@.len(),
            ctx.buf@.take(buf0.len() as int) == buf0,
            match wrap_prims(rep_prims(items@).skip(i as int), ctx.sponge@, sk.used as nat, k) {
                None => total is None,
                Some(rest) => total == Some(
                    (ctx.buf@.skip(buf0.len() as int) + rest.0, rest.1, rest.2),
                ),
            },
        decreases items@.len() - i,
    {
        proof {
            assert(rep_prims(items@)[i as int] == Prim::AbsorbTrytes(items@[i as int]));
            assert(rep_prims(items@).skip(i as int)[0] == rep_prims(items@)[i as int]);
            assert(rep_prims(items@).skip(i as int).skip(1) =~= rep_prims(items@).skip(i + 1));
        }
        let ghost pre_buf = ctx.buf@;
        let ghost done = ctx.buf@.skip(buf0.len() as int);
        let ghost m_pre = ctx.sponge@;
        let r = ctx.absorb_trytes(&items[i]);
        if r.is_err() {
            return r;
        }
        proof {
            let st = wrap_prim(rep_prims(items@)[i as int], m_pre, sk.used as nat, k).unwrap();
            assert(ctx.buf@ == pre_buf + st.0);
            assert(ctx.buf@.take(buf0.len() as int) =~= buf0);
            assert(ctx.buf@.skip(buf0.len() as int) =~= done + st.0);
            match wrap_prims(rep_prims(items@).skip(i + 1), ctx.sponge@, sk.used as nat, k) {
                None => {},
                Some(rest) => {
                    assert((done + st.0) + rest.0 =~= done + (st.0 + rest.0));
                },
            }
        }
        i = i + 1;
    }
    proof {
        assert(rep_prims(items@).skip(rep_prims(items@).len() as int) =~= Seq::<Prim>::empty());
        assert(ctx.buf@ =~= buf0 + ctx.buf@.skip(buf0.len() as int));
        match wrap_prims(rep_prims(items@), old(ctx).sponge@, sk.used as nat, k) {
            None => {},
            Some(st) => {
                assert(ctx.buf@.skip(buf0.len() as int) + Seq::<u8>::empty() =~= ctx.buf@.skip(
                    buf0.len() as int,
                ));
            },
        }
    }
    Ok(())
}

/// Runs the writing pass over a whole layout: it emits exactly the trits
/// the size pass counts, evolving the sponge and consuming one-time keys as
/// the layout demands.
#[verifier::rlimit(100)]
pub fn wrap_ops_run(
    ctx: &mut crate::wrap::Context,
    ops: &Vec<Op>,
    sk: &mut crate::mss::PrivateKey,
    ntru_pk: &crate::ntru::PublicKey,
    store: &crate::link::LinkStore,
) -> (r: Result<(), crate::errors::Error>)
    requires
        old(ctx).wf(),
        ops_wf(ops@),
        old(sk).wf(),
        ntru_pk.wf(),
        store.wf(),
    ensures
        final(ctx).wf(),
        final(sk).wf(),
        final(sk).seed@ == old(sk).seed@,
        final(sk).height == old(sk).height,
        ({
            let k = keys_of(old(sk).seed@, old(sk).height as nat, ntru_pk.trits@, store@);
            let model = wrap_ops_v(ops@, old(ctx).sponge@, old(sk).used as nat, k);
            &&& (r is Ok <==> model is Some)
            &&& (model matches Some(st) ==> r is Ok && final(ctx).buf@ == old(ctx).buf@ + st.0
                && final(ctx).sponge@ == st.1 && final(sk).used == st.2)
        }),
{
    let ghost k = keys_of(old(sk).seed@, old(sk).height as nat, ntru_pk.trits@, store@);
    let ghost buf0 = old(ctx).buf@;
    let ghost total = wrap_ops_v(ops@, old(ctx).sponge@, old(sk).used as nat, k);
    let mut i: usize = 0;
    proof {
        assert(ops@.skip(0) =~= ops@);
        assert(ctx.buf@.skip(buf0.len() as int) =~= Seq::<u8>::empty());
    }
    while i < ops.len()
        invariant
            i <= ops@.len(),
            ops_wf(ops@),
            ntru_pk.wf(),
            store.wf(),
            ctx.wf(),
            sk.wf(),
            sk.seed@ == old(sk).seed@,
            sk.height == old(sk).height,
            k == keys_of(old(sk).seed@, old(sk).height as nat, ntru_pk.trits@, store@),
            buf0 == old(ctx).buf@,
            total == wrap_ops_v(ops@, old(ctx).sponge@, old(sk).used as nat, k),
            buf0.len() <= ctx.buf@.len(),
            ctx.buf@.take(buf0.len() as int) == buf0,
            match wrap_ops_v(ops@.skip(i as int), ctx.sponge@, sk.used as nat, k) {
                None => total is None,
                Some(rest) => total == Some(
                    (ctx.buf@.skip(buf0.len() as int) + rest.0, rest.1, rest.2),
                ),
            },
        decreases ops@.len() - i,
    {
        proof {
            assert(ops@.skip(i as int)[0] == ops@[i as int]);
            assert(ops@.skip(i as int).skip(1) =~= ops@.skip(i + 1));
        }
        let ghost pre_buf = ctx.buf@;
        let ghost done = ctx.buf@.skip(buf0.len() as int);
        let ghost m_pre = ctx.sponge@;
        let ghost u_pre = sk.used as nat;
        let step: Result<(), crate::errors::Error> = match &ops[i] {
            Op::Prim(p) => wrap_prim_run(ctx, p, sk, ntru_pk, store),
            Op::Fork(sub) => {
                let saved = ctx.fork_sponge();
                let inner = wrap_prims_run(ctx, sub, sk, ntru_pk, store);
                if inner.is_ok() {
                    ctx.restore_sponge(saved);
                }
                inner
            },
            Op::Repeated(items) => wrap_rep_run(ctx, items, sk, ntru_pk, store),
            Op::Join(l) => ctx.join(store, l),
        };
        if step.is_err() {
            return step;
        }
        proof {
            let st = wrap_op(ops@[i as int], m_pre, u_pre, k).unwrap();
            assert(ctx.buf@ == pre_buf + st.0);
            assert(ctx.buf@.take(buf0.len() as int) =~= buf0);
            assert(ctx.buf@.skip(buf0.len() as int) =~= done + st.0);
            match wrap_ops_v(ops@.skip(i + 1), ctx.sponge@, sk.used as nat, k) {
                None => {},
                Some(rest) => {
                    assert((done + st.0) + rest.0 =~= done + (st.0 + rest.0));
                },
            }
        }
        i = i + 1;
    }
    proof {
        assert(ops@.skip(ops@.len() as int) =~= Seq::<Op>::empty());
        assert(ctx.buf@ =~= buf0 + ctx.buf@.skip(buf0.len() as int));
        match wrap_ops_v(ops@, old(ctx).sponge@, old(sk).used as nat, k) {
            None => {},
            Some(st) => {
                assert(ctx.buf@.skip(buf0.len() as int) + Seq::<u8>::empty() =~= ctx.buf@.skip(
                    buf0.len() as int,
                ));
            },
        }
    }
    Ok(())
}

} // verus!
