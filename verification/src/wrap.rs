use vstd::prelude::*;
use crate::errors::Error;
use crate::trits::{Trits, trits_wf};
use crate::types::{
    Trint3, Size, Trytes, NTrytes, Mac, External, enc_trint3, enc_size, push_trint3, push_size,
    lemma_enc_trint3, lemma_enc_size,
};
use crate::spongos::{Spongos, sp_absorb_s, sp_squeeze_s, sp_encrypt_s, sp_commit};
use crate::mss;
use crate::ntru;
use crate::link::{LinkStore, resolve_v};

verus! {

/// Writing pass: owns the output buffer and a live sponge.  Every operation
/// appends exactly the trits the size pass counts for it, and evolves the
/// sponge exactly as the reading pass will.
pub struct Context {
    /// The trits emitted so far.
    pub buf: Vec<u8>,
    /// The transcript state.
    pub sponge: Spongos,
}

impl Context {
    pub open spec fn wf(&self) -> bool {
        &&& trits_wf(self.buf@)
        &&& self.sponge.wf()
    }

    /// Starts a writing pass over the given sponge state.
    pub fn new(sponge: Spongos) -> (r: Self)
        requires
            sponge.wf(),
        ensures
            r.buf@ == Seq::<u8>::empty(),
            r.sponge@ == sponge@,
            r.wf(),
    {
        Context { buf: Vec::new(), sponge }
    }

    /// The number of trits written so far.
    pub fn get_size(&self) -> (n: usize)
        ensures
            n == self.buf@.len(),
    {
        self.buf.len()
    }

    /// Diagnostic only: the running size, for callers that log progress.
    pub fn dump(&self) -> (n: usize)
        ensures
            n == self.buf@.len(),
    {
        self.buf.len()
    }

    /// Appends cleartext trits and folds them into the transcript.
    fn absorb_raw(&mut self, mut enc: Vec<u8>)
        requires
            old(self).wf(),
            trits_wf(enc@),
        ensures
            final(self).buf@ == old(self).buf@ + enc@,
            final(self).sponge@ == sp_absorb_s(old(self).sponge@, enc@),
            final(self).wf(),
    {
        self.sponge.absorb(&enc);
        self.buf.append(&mut enc);
    }

    /// Appends trits without touching the transcript.
    fn skip_raw(&mut self, mut enc: Vec<u8>)
        requires
            old(self).wf(),
            trits_wf(enc@),
        ensures
            final(self).buf@ == old(self).buf@ + enc@,
            final(self).sponge@ == old(self).sponge@,
            final(self).wf(),
    {
        self.buf.append(&mut enc);
    }

    /// Encrypts cleartext trits with the keystream, appends the ciphertext,
    /// and folds the cleartext into the transcript.
    fn mask_raw(&mut self, enc: Vec<u8>)
        requires
            old(self).wf(),
            trits_wf(enc@),
        ensures
            final(self).buf@ == old(self).buf@ + sp_encrypt_s(old(self).sponge@, enc@).0,
            final(self).sponge@ == sp_encrypt_s(old(self).sponge@, enc@).1,
            final(self).wf(),
    {
        let mut ct = self.sponge.encrypt(&enc);
        self.buf.append(&mut ct);
    }

    /// Absorbs a `Trint3`: three cleartext trits.
    pub fn absorb_trint3(&mut self, val: &Trint3) -> (r: Result<(), Error>)
        requires
            old(self).wf(),
            val.wf(),
        ensures
            r is Ok,
            final(self).buf@ == old(self).buf@ + enc_trint3(val.0 as int),
            final(self).sponge@ == sp_absorb_s(old(self).sponge@, enc_trint3(val.0 as int)),
            final(self).wf(),
    {
        let mut enc: Vec<u8> = Vec::new();
        push_trint3(&mut enc, val.0);
        proof {
            lemma_enc_trint3(val.0 as int);
        }
        self.absorb_raw(enc);
        Ok(())
    }

    /// Absorbs a `Size` in its variable-width encoding.
    pub fn absorb_size(&mut self, val: &Size) -> (r: Result<(), Error>)
        requires
            old(self).wf(),
        ensures
            r is Ok,
            final(self).buf@ == old(self).buf@ + enc_size(val.0 as nat),
            final(self).sponge@ == sp_absorb_s(old(self).sponge@, enc_size(val.0 as nat)),
            final(self).wf(),
    {
        let mut enc: Vec<u8> = Vec::new();
        push_size(&mut enc, val.0);
        proof {
            lemma_enc_size(val.0 as nat);
        }
        self.absorb_raw(enc);
        Ok(())
    }

    /// Absorbs `Trytes`: the length prefix, then the content.
    pub fn absorb_trytes(&mut self, trytes: &Trytes) -> (r: Result<(), Error>)
        requires
            old(self).wf(),
            trytes.wf(),
        ensures
            trytes@.len() % 3 != 0 ==> r == Err::<(), Error>(Error::LengthNotMultipleOf3)
                && *final(self) == *old(self),
            trytes@.len() % 3 == 0 ==> r is Ok && final(self).buf@ == old(self).buf@ + (enc_size(
                trytes@.len() / 3,
            ) + trytes@) && final(self).sponge@ == sp_absorb_s(
                old(self).sponge@,
                enc_size(trytes@.len() / 3) + trytes@,
            ),
            final(self).wf(),
    {
        let n = trytes.0.size();
        if n % 3 != 0 {
            return Err(Error::LengthNotMultipleOf3);
        }
        let mut enc: Vec<u8> = Vec::new();
        push_size(&mut enc, n / 3);
        let mut i: usize = 0;
        while i < n
            invariant
                i <= n,
                n == trytes@.len(),
                trytes.wf(),
                enc@ == enc_size((n / 3) as nat) + trytes@.take(i as int),
            decreases n - i,
        {
            let ghost prev = enc@;
            enc.push(trytes.0.get(i));
            proof {
                assert(enc@ =~= enc_size((n / 3) as nat) + trytes@.take(i + 1));
            }
            i = i + 1;
        }
        proof {
            lemma_enc_size((n / 3) as nat);
            assert(enc@ =~= enc_size((n / 3) as nat) + trytes@);
        }
        self.absorb_raw(enc);
        Ok(())
    }

    /// Absorbs fixed trytes: the content alone.
    pub fn absorb_ntrytes(&mut self, ntrytes: &NTrytes) -> (r: Result<(), Error>)
        requires
            old(self).wf(),
            ntrytes.wf(),
        ensures
            ntrytes@.len() % 3 != 0 ==> r == Err::<(), Error>(Error::LengthNotMultipleOf3)
                && *final(self) == *old(self),
            ntrytes@.len() % 3 == 0 ==> r is Ok && final(self).buf@ == old(self).buf@ + ntrytes@
                && final(self).sponge@ == sp_absorb_s(old(self).sponge@, ntrytes@),
            final(self).wf(),
    {
        let n = ntrytes.0.size();
        if n % 3 != 0 {
            return Err(Error::LengthNotMultipleOf3);
        }
        let enc = ntrytes.0.duplicate();
        self.absorb_raw(enc.0);
        Ok(())
    }

    /// Absorbs an MSS public key: fixed size, cleartext.
    pub fn absorb_mss_pk(&mut self, pk: &mss::PublicKey) -> (r: Result<(), Error>)
        requires
            old(self).wf(),
            pk.trits.wf(),
        ensures
            pk.trits@.len() != mss::PK_SIZE ==> r == Err::<(), Error>(Error::KeySizeMismatch)
                && *final(self) == *old(self),
            pk.trits@.len() == mss::PK_SIZE ==> r is Ok && final(self).buf@ == old(self).buf@
                + pk.trits@ && final(self).sponge@ == sp_absorb_s(old(self).sponge@, pk.trits@),
            final(self).wf(),
    {
        if pk.trits().size() != mss::PK_SIZE {
            return Err(Error::KeySizeMismatch);
        }
        let enc = pk.trits.duplicate();
        self.absorb_raw(enc.0);
        Ok(())
    }

    /// Absorbs an NTRU public key: fixed size, cleartext.
    pub fn absorb_ntru_pk(&mut self, pk: &ntru::PublicKey) -> (r: Result<(), Error>)
        requires
            old(self).wf(),
            pk.trits.wf(),
        ensures
            pk.trits@.len() != ntru::PK_SIZE ==> r == Err::<(), Error>(Error::KeySizeMismatch)
                && *final(self) == *old(self),
            pk.trits@.len() == ntru::PK_SIZE ==> r is Ok && final(self).buf@ == old(self).buf@
                + pk.trits@ && final(self).sponge@ == sp_absorb_s(old(self).sponge@, pk.trits@),
            final(self).wf(),
    {
        if pk.trits().size() != ntru::PK_SIZE {
            return Err(Error::KeySizeMismatch);
        }
        let enc = pk.trits.duplicate();
        self.absorb_raw(enc.0);
        Ok(())
    }

    /// Absorbs an external value: zero wire trits, but the transcript still
    /// takes the content in.
    pub fn absorb_external_ntrytes(&mut self, val: &External<NTrytes>) -> (r: Result<(), Error>)
        requires
            old(self).wf(),
            val.0.wf(),
        ensures
            r is Ok,
            final(self).buf@ == old(self).buf@,
            final(self).sponge@ == sp_absorb_s(old(self).sponge@, val.0@),
            final(self).wf(),
    {
        self.sponge.absorb(&val.0.0.0);
        Ok(())
    }

    /// Squeezes a tag of the declared length onto the wire.
    pub fn squeeze_mac(&mut self, mac: &Mac) -> (r: Result<(), Error>)
        requires
            old(self).wf(),
        ensures
            mac.0 % 3 != 0 ==> r == Err::<(), Error>(Error::LengthNotMultipleOf3) && *final(self)
                == *old(self),
            mac.0 % 3 == 0 ==> r is Ok && final(self).buf@ == old(self).buf@ + sp_squeeze_s(
                old(self).sponge@,
                mac.0 as nat,
            ).0 && final(self).sponge@ == sp_squeeze_s(old(self).sponge@, mac.0 as nat).1,
            final(self).wf(),
    {
        if mac.0 % 3 != 0 {
            return Err(Error::LengthNotMultipleOf3);
        }
        let mut out = self.sponge.squeeze(mac.0);
        self.buf.append(&mut out);
        Ok(())
    }

    /// Squeezes `n` trits of output for the caller, writing nothing.
    pub fn squeeze_external_ntrytes(&mut self, n: usize) -> (r: NTrytes)
        requires
            old(self).wf(),
        ensures
            r@ == sp_squeeze_s(old(self).sponge@, n as nat).0,
            r.wf(),
            r@.len() == n,
            final(self).buf@ == old(self).buf@,
            final(self).sponge@ == sp_squeeze_s(old(self).sponge@, n as nat).1,
            final(self).wf(),
    {
        let out = self.sponge.squeeze(n);
        NTrytes(Trits(out))
    }

    /// Advances the sponge past an external tag that never reaches the wire.
    pub fn squeeze_external_mac(&mut self, mac: &Mac) -> (r: Result<(), Error>)
        requires
            old(self).wf(),
        ensures
            r is Ok,
            final(self).buf@ == old(self).buf@,
            final(self).sponge@ == sp_squeeze_s(old(self).sponge@, mac.0 as nat).1,
            final(self).wf(),
    {
        let _ = self.sponge.squeeze(mac.0);
        Ok(())
    }

    /// Masks a `Trint3`: its encoding is encrypted onto the wire.
    pub fn mask_trint3(&mut self, val: &Trint3) -> (r: Result<(), Error>)
        requires
            old(self).wf(),
            val.wf(),
        ensures
            r is Ok,
            final(self).buf@ == old(self).buf@ + sp_encrypt_s(
                old(self).sponge@,
                enc_trint3(val.0 as int),
            ).0,
            final(self).sponge@ == sp_encrypt_s(old(self).sponge@, enc_trint3(val.0 as int)).1,
            final(self).wf(),
    {
        let mut enc: Vec<u8> = Vec::new();
        push_trint3(&mut enc, val.0);
        proof {
            lemma_enc_trint3(val.0 as int);
        }
        self.mask_raw(enc);
        Ok(())
    }

    /// Masks a `Size`: the variable-width encoding is encrypted.
    pub fn mask_size(&mut self, val: &Size) -> (r: Result<(), Error>)
        requires
            old(self).wf(),
        ensures
            r is Ok,
            final(self).buf@ == old(self).buf@ + sp_encrypt_s(
                old(self).sponge@,
                enc_size(val.0 as nat),
            ).0,
            final(self).sponge@ == sp_encrypt_s(old(self).sponge@, enc_size(val.0 as nat)).1,
            final(self).wf(),
    {
        let mut enc: Vec<u8> = Vec::new();
        push_size(&mut enc, val.0);
        proof {
            lemma_enc_size(val.0 as nat);
        }
        self.mask_raw(enc);
        Ok(())
    }

    /// Masks fixed trytes: the content is encrypted in place.
    pub fn mask_ntrytes(&mut self, val: &NTrytes) -> (r: Result<(), Error>)
        requires
            old(self).wf(),
            val.wf(),
        ensures
            val@.len() % 3 != 0 ==> r == Err::<(), Error>(Error::LengthNotMultipleOf3)
                && *final(self) == *old(self),
            val@.len() % 3 == 0 ==> r is Ok && final(self).buf@ == old(self).buf@ + sp_encrypt_s(
                old(self).sponge@,
                val@,
            ).0 && final(self).sponge@ == sp_encrypt_s(old(self).sponge@, val@).1,
            final(self).wf(),
    {
        let n = val.0.size();
        if n % 3 != 0 {
            return Err(Error::LengthNotMultipleOf3);
        }
        let enc = val.0.duplicate();
        self.mask_raw(enc.0);
        Ok(())
    }

    /// Masks `Trytes`: the size prefix is masked together with the content.
    pub fn mask_trytes(&mut self, trytes: &Trytes) -> (r: Result<(), Error>)
        requires
            old(self).wf(),
            trytes.wf(),
        ensures
            trytes@.len() % 3 != 0 ==> r == Err::<(), Error>(Error::LengthNotMultipleOf3)
                && *final(self) == *old(self),
            trytes@.len() % 3 == 0 ==> r is Ok && final(self).buf@ == old(self).buf@
                + sp_encrypt_s(old(self).sponge@, enc_size(trytes@.len() / 3) + trytes@).0
                && final(self).sponge@ == sp_encrypt_s(
                old(self).sponge@,
                enc_size(trytes@.len() / 3) + trytes@,
            ).1,
            final(self).wf(),
    {
        let n = trytes.0.size();
        if n % 3 != 0 {
            return Err(Error::LengthNotMultipleOf3);
        }
        let mut enc: Vec<u8> = Vec::new();
        push_size(&mut enc, n / 3);
        let mut i: usize = 0;
        while i < n
            invariant
                i <= n,
                n == trytes@.len(),
                trytes.wf(),
                enc@ == enc_size((n / 3) as nat) + trytes@.take(i as int),
            decreases n - i,
        {
            enc.push(trytes.0.get(i));
            proof {
                assert(enc@ =~= enc_size((n / 3) as nat) + trytes@.take(i + 1));
            }
            i = i + 1;
        }
        proof {
            lemma_enc_size((n / 3) as nat);
            assert(enc@ =~= enc_size((n / 3) as nat) + trytes@);
        }
        self.mask_raw(enc);
        Ok(())
    }

    /// Masks an NTRU public key.
    pub fn mask_ntru_pk(&mut self, pk: &ntru::PublicKey) -> (r: Result<(), Error>)
        requires
            old(self).wf(),
            pk.trits.wf(),
        ensures
            pk.trits@.len() != ntru::PK_SIZE ==> r == Err::<(), Error>(Error::KeySizeMismatch)
                && *final(self) == *old(self),
            pk.trits@.len() == ntru::PK_SIZE ==> r is Ok && final(self).buf@ == old(self).buf@
                + sp_encrypt_s(old(self).sponge@, pk.trits@).0 && final(self).sponge@
                == sp_encrypt_s(old(self).sponge@, pk.trits@).1,
            final(self).wf(),
    {
        if pk.trits().size() != ntru::PK_SIZE {
            return Err(Error::KeySizeMismatch);
        }
        let enc = pk.trits.duplicate();
        self.mask_raw(enc.0);
        Ok(())
    }

    /// Masks an MSS public key.
    pub fn mask_mss_pk(&mut self, pk: &mss::PublicKey) -> (r: Result<(), Error>)
        requires
            old(self).wf(),
            pk.trits.wf(),
        ensures
            pk.trits@.len() != mss::PK_SIZE ==> r == Err::<(), Error>(Error::KeySizeMismatch)
                && *final(self) == *old(self),
            pk.trits@.len() == mss::PK_SIZE ==> r is Ok && final(self).buf@ == old(self).buf@
                + sp_encrypt_s(old(self).sponge@, pk.trits@).0 && final(self).sponge@
                == sp_encrypt_s(old(self).sponge@, pk.trits@).1,
            final(self).wf(),
    {
        if pk.trits().size() != mss::PK_SIZE {
            return Err(Error::KeySizeMismatch);
        }
        let enc = pk.trits.duplicate();
        self.mask_raw(enc.0);
        Ok(())
    }

    /// Skips a `Trint3`: encoded verbatim, not authenticated.
    pub fn skip_trint3(&mut self, val: &Trint3) -> (r: Result<(), Error>)
        requires
            old(self).wf(),
            val.wf(),
        ensures
            r is Ok,
            final(self).buf@ == old(self).buf@ + enc_trint3(val.0 as int),
            final(self).sponge@ == old(self).sponge@,
            final(self).wf(),
    {
        let mut enc: Vec<u8> = Vec::new();
        push_trint3(&mut enc, val.0);
        proof {
            lemma_enc_trint3(val.0 as int);
        }
        self.skip_raw(enc);
        Ok(())
    }

    /// Skips a `Size`.
    pub fn skip_size(&mut self, val: &Size) -> (r: Result<(), Error>)
        requires
            old(self).wf(),
        ensures
            r is Ok,
            final(self).buf@ == old(self).buf@ + enc_size(val.0 as nat),
            final(self).sponge@ == old(self).sponge@,
            final(self).wf(),
    {
        let mut enc: Vec<u8> = Vec::new();
        push_size(&mut enc, val.0);
        proof {
            lemma_enc_size(val.0 as nat);
        }
        self.skip_raw(enc);
        Ok(())
    }

    /// Skips `Trytes`: length prefix and content, verbatim.
    pub fn skip_trytes(&mut self, trytes: &Trytes) -> (r: Result<(), Error>)
        requires
            old(self).wf(),
            trytes.wf(),
        ensures
            trytes@.len() % 3 != 0 ==> r == Err::<(), Error>(Error::LengthNotMultipleOf3)
                && *final(self) == *old(self),
            trytes@.len() % 3 == 0 ==> r is Ok && final(self).buf@ == old(self).buf@ + (enc_size(
                trytes@.len() / 3,
            ) + trytes@) && final(self).sponge@ == old(self).sponge@,
            final(self).wf(),
    {
        let n = trytes.0.size();
        if n % 3 != 0 {
            return Err(Error::LengthNotMultipleOf3);
        }
        let mut enc: Vec<u8> = Vec::new();
        push_size(&mut enc, n / 3);
        let mut i: usize = 0;
        while i < n
            invariant
                i <= n,
                n == trytes@.len(),
                trytes.wf(),
                enc@ == enc_size((n / 3) as nat) + trytes@.take(i as int),
            decreases n - i,
        {
            enc.push(trytes.0.get(i));
            proof {
                assert(enc@ =~= enc_size((n / 3) as nat) + trytes@.take(i + 1));
            }
            i = i + 1;
        }
        proof {
            lemma_enc_size((n / 3) as nat);
            assert(enc@ =~= enc_size((n / 3) as nat) + trytes@);
        }
        self.skip_raw(enc);
        Ok(())
    }

    /// Skips fixed trytes.
    pub fn skip_ntrytes(&mut self, ntrytes: &NTrytes) -> (r: Result<(), Error>)
        requires
            old(self).wf(),
            ntrytes.wf(),
        ensures
            ntrytes@.len() % 3 != 0 ==> r == Err::<(), Error>(Error::LengthNotMultipleOf3)
                && *final(self) == *old(self),
            ntrytes@.len() % 3 == 0 ==> r is Ok && final(self).buf@ == old(self).buf@ + ntrytes@
                && final(self).sponge@ == old(self).sponge@,
            final(self).wf(),
    {
        let n = ntrytes.0.size();
        if n % 3 != 0 {
            return Err(Error::LengthNotMultipleOf3);
        }
        let enc = ntrytes.0.duplicate();
        self.skip_raw(enc.0);
        Ok(())
    }

    /// Commit: zero wire trits, closes the sponge's permutation block.
    pub fn commit(&mut self) -> (r: Result<(), Error>)
        requires
            old(self).wf(),
        ensures
            r is Ok,
            final(self).buf@ == old(self).buf@,
            final(self).sponge@ == sp_commit(old(self).sponge@),
            final(self).wf(),
    {
        self.sponge.commit();
        Ok(())
    }

    /// Signs an already-available external hash, consuming one leaf key.
    /// The signature trits are detachable: the sponge is not advanced.
    pub fn mssig(&mut self, sk: &mut mss::PrivateKey, hash: &External<NTrytes>) -> (r: Result<
        (),
        Error,
    >)
        requires
            old(self).wf(),
            old(sk).wf(),
            hash.0.wf(),
        ensures
            hash.0@.len() != mss::HASH_SIZE ==> r == Err::<(), Error>(Error::HashSizeMismatch)
                && *final(self) == *old(self) && *final(sk) == *old(sk),
            hash.0@.len() == mss::HASH_SIZE && old(sk).used == old(sk).capacity() ==> r
                == Err::<(), Error>(Error::MssExhausted) && *final(self) == *old(self)
                && *final(sk) == *old(sk),
            hash.0@.len() == mss::HASH_SIZE && old(sk).used < old(sk).capacity() ==> r is Ok
                && final(self).buf@ == old(self).buf@ + mss::sig_v(
                old(sk).seed@,
                old(sk).height as nat,
                old(sk).used as nat,
                hash.0@,
            ) && final(self).sponge@ == old(self).sponge@ && final(sk).seed@ == old(sk).seed@
                && final(sk).height == old(sk).height && final(sk).used == old(sk).used + 1
                && final(sk).wf(),
            final(self).wf(),
            final(sk).wf(),
    {
        if hash.0.0.size() != mss::HASH_SIZE {
            return Err(Error::HashSizeMismatch);
        }
        if sk.private_keys_left() == 0 {
            return Err(Error::MssExhausted);
        }
        proof {
            if sk.height < 20 {
                vstd::arithmetic::power2::lemma_pow2_strictly_increases(
                    sk.height as nat,
                    20,
                );
            }
            mss::lemma_idx_fits(sk.used as nat);
            vstd::arithmetic::power2::lemma2_to64();
            assert(sk.used < vstd::arithmetic::power2::pow2(20));
        }
        let sig = mss::sign(&sk.seed, sk.height, sk.used, &hash.0.0);
        self.skip_raw(sig);
        sk.used = sk.used + 1;
        Ok(())
    }

    /// Encapsulates a secret under the recipient's public key; the fixed-size
    /// ciphertext goes out verbatim.
    pub fn ntrukem(&mut self, key: &ntru::PublicKey, secret: &NTrytes) -> (r: Result<(), Error>)
        requires
            old(self).wf(),
            key.trits.wf(),
            secret.0.wf(),
        ensures
            key.trits@.len() != ntru::PK_SIZE ==> r == Err::<(), Error>(Error::KeySizeMismatch)
                && *final(self) == *old(self),
            key.trits@.len() == ntru::PK_SIZE && secret@.len() != ntru::KEY_SIZE ==> r
                == Err::<(), Error>(Error::KeySizeMismatch) && *final(self) == *old(self),
            key.trits@.len() == ntru::PK_SIZE && secret@.len() == ntru::KEY_SIZE ==> r is Ok
                && final(self).buf@ == old(self).buf@ + ntru::encap_v(key.trits@, secret@)
                && final(self).sponge@ == old(self).sponge@,
            final(self).wf(),
    {
        if key.trits().size() != ntru::PK_SIZE {
            return Err(Error::KeySizeMismatch);
        }
        if secret.0.size() != ntru::KEY_SIZE {
            return Err(Error::KeySizeMismatch);
        }
        let ct = ntru::encap(&key.trits, &secret.0);
        self.skip_raw(ct);
        Ok(())
    }

    /// A snapshot of the sponge, for running a fork on an independent branch.
    pub fn fork_sponge(&self) -> (s: Spongos)
        ensures
            s@ == self.sponge@,
    {
        self.sponge.duplicate()
    }

    /// Rewinds the transcript to a saved branch point; the buffer keeps
    /// whatever the fork wrote.
    pub fn restore_sponge(&mut self, s: Spongos)
        requires
            old(self).wf(),
            s.wf(),
        ensures
            final(self).buf@ == old(self).buf@,
            final(self).sponge@ == s@,
            final(self).wf(),
    {
        self.sponge = s;
    }

    /// Joins a previously produced message: its link goes out verbatim and
    /// its stored commitment is folded into the transcript.
    pub fn join(&mut self, store: &LinkStore, link: &NTrytes) -> (r: Result<(), Error>)
        requires
            old(self).wf(),
            link.0.wf(),
            store.wf(),
        ensures
            link@.len() % 3 != 0 ==> r == Err::<(), Error>(Error::LengthNotMultipleOf3)
                && *final(self) == *old(self),
            link@.len() % 3 == 0 && resolve_v(store@, link@) is None ==> r == Err::<(), Error>(
                Error::LinkNotFound,
            ) && *final(self) == *old(self),
            link@.len() % 3 == 0 && resolve_v(store@, link@) is Some ==> r is Ok && final(self).buf@ == old(self).buf@ + link@ && final(self).sponge@ == sp_absorb_s(
                old(self).sponge@,
                resolve_v(store@, link@).unwrap(),
            ),
            final(self).wf(),
    {
        let n = link.0.size();
        if n % 3 != 0 {
            return Err(Error::LengthNotMultipleOf3);
        }
        let found = store.resolve(&link.0);
        match found {
            None => Err(Error::LinkNotFound),
            Some(commitment) => {
                proof {
                    crate::link::lemma_resolve_wf(store, link.0@);
                }
                self.sponge.absorb(&commitment.0);
                let enc = link.0.duplicate();
                let mut encv = enc.0;
                self.buf.append(&mut encv);
                Ok(())
            },
        }
    }
}

} // verus!
