use vstd::prelude::*;
use crate::trits::{Trits, trits_wf, tadd, tsub, add_t, sub_t, lemma_tadd_tsub};

verus! {

// Key encapsulation: a fixed-size secret goes in, a fixed-size ciphertext
// comes out, and the matching private key recovers the secret.  The lattice
// arithmetic itself lives outside this crate; here encapsulation is modeled
// as a fixed, invertible mix of the secret with the key trits, which is what
// the passes need: fixed sizes, determinism, and exact round-tripping.

/// Trit length of a public key.
pub const PK_SIZE: usize = 243;

/// Trit length of a secret that can be encapsulated.
pub const KEY_SIZE: usize = 81;

/// Trit length of an encapsulated secret on the wire.
pub const EKEY_SIZE: usize = 243;

/// The ciphertext for `secret` under key trits `pk`: the secret masked by
/// the key's head, then key-dependent filler up to the fixed size.
pub open spec fn encap_v(pk: Seq<u8>, secret: Seq<u8>) -> Seq<u8> {
    Seq::new(
        EKEY_SIZE as nat,
        |j: int|
            if j < KEY_SIZE {
                tadd(secret[j], pk[j])
            } else {
                tadd(pk[j], (j % 3) as u8)
            },
    )
}

/// The secret recovered from a ciphertext by the key trits `sk`.
pub open spec fn decap_v(sk: Seq<u8>, ct: Seq<u8>) -> Seq<u8> {
    Seq::new(KEY_SIZE as nat, |j: int| tsub(ct[j], sk[j]))
}

pub proof fn lemma_encap_wf(pk: Seq<u8>, secret: Seq<u8>)
    requires
        pk.len() == PK_SIZE,
        trits_wf(pk),
        secret.len() == KEY_SIZE,
        trits_wf(secret),
    ensures
        encap_v(pk, secret).len() == EKEY_SIZE,
        trits_wf(encap_v(pk, secret)),
{
    assert forall|j: int| 0 <= j < EKEY_SIZE implies encap_v(pk, secret)[j] < 3 by {
        if j < KEY_SIZE {
            assert(secret[j] < 3 && pk[j] < 3);
        } else {
            assert(pk[j] < 3);
        }
    };
}

/// Decapsulating with the matching key returns the secret.
pub proof fn lemma_kem_roundtrip(k: Seq<u8>, secret: Seq<u8>)
    requires
        k.len() == PK_SIZE,
        trits_wf(k),
        secret.len() == KEY_SIZE,
        trits_wf(secret),
    ensures
        decap_v(k, encap_v(k, secret)) == secret,
{
    assert forall|j: int| 0 <= j < KEY_SIZE implies decap_v(k, encap_v(k, secret))[j]
        == secret[j] by {
        lemma_tadd_tsub(secret[j], k[j]);
    };
    assert(decap_v(k, encap_v(k, secret)) =~= secret);
}

/// The public half of an encapsulation key pair.
pub struct PublicKey {
    pub trits: Trits,
}

impl PublicKey {
    pub open spec fn wf(&self) -> bool {
        &&& self.trits@.len() == PK_SIZE
        &&& self.trits.wf()
    }

    pub fn trits(&self) -> (r: &Trits)
        ensures
            r@ == self.trits@,
    {
        &self.trits
    }
}

/// The private half; in this model it carries the same key trits, and the
/// pair relation is their equality.
pub struct PrivateKey {
    pub trits: Trits,
}

impl PrivateKey {
    pub open spec fn wf(&self) -> bool {
        &&& self.trits@.len() == PK_SIZE
        &&& self.trits.wf()
    }

    /// Does `pk` open what this key closes?
    pub open spec fn matches(&self, pk: &PublicKey) -> bool {
        self.trits@ == pk.trits@
    }

    pub fn public_key(&self) -> (r: PublicKey)
        requires
            self.wf(),
        ensures
            r.wf(),
            self.matches(&r),
    {
        PublicKey { trits: self.trits.duplicate() }
    }
}

/// Builds the wire ciphertext for `secret` under `pk`.
pub fn encap(pk: &Trits, secret: &Trits) -> (r: Vec<u8>)
    requires
        pk@.len() == PK_SIZE,
        pk.wf(),
        secret@.len() == KEY_SIZE,
        secret.wf(),
    ensures
        r@ == encap_v(pk@, secret@),
        r@.len() == EKEY_SIZE,
        trits_wf(r@),
{
    proof {
        lemma_encap_wf(pk@, secret@);
    }
    let mut r: Vec<u8> = Vec::new();
    let mut j: usize = 0;
    while j < EKEY_SIZE
        invariant
            j <= EKEY_SIZE,
            pk@.len() == PK_SIZE,
            pk.wf(),
            secret@.len() == KEY_SIZE,
            secret.wf(),
            r@.len() == j,
            forall|q: int| 0 <= q < j ==> r@[q] == encap_v(pk@, secret@)[q],
        decreases EKEY_SIZE - j,
    {
        let t = if j < KEY_SIZE {
            add_t(secret.get(j), pk.get(j))
        } else {
            add_t(pk.get(j), (j % 3) as u8)
        };
        r.push(t);
        j = j + 1;
    }
    proof {
        assert(r@ =~= encap_v(pk@, secret@));
    }
    r
}

/// Recovers the secret from a wire ciphertext with the private key.
pub fn decap(sk: &Trits, ct: &Vec<u8>) -> (r: Trits)
    requires
        sk@.len() == PK_SIZE,
        sk.wf(),
        ct@.len() == EKEY_SIZE,
        trits_wf(ct@),
    ensures
        r@ == decap_v(sk@, ct@),
        r@.len() == KEY_SIZE,
        r.wf(),
{
    let mut r: Vec<u8> = Vec::new();
    let mut j: usize = 0;
    while j < KEY_SIZE
        invariant
            j <= KEY_SIZE,
            sk@.len() == PK_SIZE,
            sk.wf(),
            ct@.len() == EKEY_SIZE,
            trits_wf(ct@),
            r@.len() == j,
            forall|q: int| 0 <= q < j ==> r@[q] == decap_v(sk@, ct@)[q] && r@[q] < 3,
        decreases KEY_SIZE - j,
    {
        let t = sub_t(ct[j], sk.get(j));
        r.push(t);
        j = j + 1;
    }
    proof {
        assert(r@ =~= decap_v(sk@, ct@));
    }
    Trits(r)
}

} // verus!
