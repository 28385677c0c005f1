use vstd::prelude::*;
use crate::errors::Error;
use crate::types::{Trint3, Size, Trytes, NTrytes, Mac, External, MssHashSig, sizeof_sizet, size_trytes_exec};
use crate::mss;
use crate::ntru;
use crate::link::LinkStore;

verus! {

/// Message size counting context: a pure accumulator.  Every operation adds
/// the exact encoded length its wrap counterpart will emit, touching no
/// buffer and no sponge, so the total is known before any byte is written.
pub struct Context {
    /// The current message size in trits.
    pub size: usize,
}

/// Can `delta` more trits be counted without exceeding the machine word?
pub open spec fn fits(size: nat, delta: nat) -> bool {
    size + delta <= usize::MAX
}

impl Context {
    /// Creates a new Context.
    pub fn new() -> (r: Self)
        ensures
            r.size == 0,
    {
        Self { size: 0 }
    }

    /// Returns calculated message size.
    pub fn get_size(&self) -> (n: usize)
        ensures
            n == self.size,
    {
        self.size
    }

    /// Counts `delta` more trits, refusing to wrap around.
    fn add(&mut self, delta: usize) -> (r: Result<(), Error>)
        ensures
            fits(old(self).size as nat, delta as nat) ==> r is Ok && final(self).size
                == old(self).size + delta,
            !fits(old(self).size as nat, delta as nat) ==> r == Err::<(), Error>(
                Error::SizeOverflow,
            ) && *final(self) == *old(self),
    {
        if self.size > usize::MAX - delta {
            Err(Error::SizeOverflow)
        } else {
            self.size = self.size + delta;
            Ok(())
        }
    }

    /// All `Trint3` values are encoded with 3 trits.
    pub fn absorb_trint3(&mut self, _val: &Trint3) -> (r: Result<(), Error>)
        ensures
            fits(old(self).size as nat, 3) ==> r is Ok && final(self).size == old(self).size + 3,
            !fits(old(self).size as nat, 3) ==> r == Err::<(), Error>(Error::SizeOverflow)
                && *final(self) == *old(self),
    {
        self.add(3)
    }

    /// `Size` has var-size encoding.
    pub fn absorb_size(&mut self, val: &Size) -> (r: Result<(), Error>)
        ensures
            fits(old(self).size as nat, sizeof_sizet(val.0 as nat)) ==> r is Ok && final(self).size == old(self).size + sizeof_sizet(val.0 as nat),
            !fits(old(self).size as nat, sizeof_sizet(val.0 as nat)) ==> r == Err::<(), Error>(
                Error::SizeOverflow,
            ) && *final(self) == *old(self),
    {
        let d = size_trytes_exec(val.0);
        self.add(3 + 3 * d)
    }

    /// `Trytes` is variable-sized: its length is encoded before the content.
    pub fn absorb_trytes(&mut self, trytes: &Trytes) -> (r: Result<(), Error>)
        ensures
            trytes@.len() % 3 != 0 ==> r == Err::<(), Error>(Error::LengthNotMultipleOf3)
                && *final(self) == *old(self),
            trytes@.len() % 3 == 0 && fits(
                old(self).size as nat,
                sizeof_sizet(trytes@.len() / 3) + trytes@.len(),
            ) ==> r is Ok && final(self).size == old(self).size + sizeof_sizet(
                trytes@.len() / 3,
            ) + trytes@.len(),
            trytes@.len() % 3 == 0 && !fits(
                old(self).size as nat,
                sizeof_sizet(trytes@.len() / 3) + trytes@.len(),
            ) ==> r == Err::<(), Error>(Error::SizeOverflow) && *final(self) == *old(self),
    {
        let n = trytes.0.size();
        if n % 3 != 0 {
            return Err(Error::LengthNotMultipleOf3);
        }
        let d = size_trytes_exec(n / 3);
        let prefix = 3 + 3 * d;
        if self.size > usize::MAX - prefix {
            return Err(Error::SizeOverflow);
        }
        if self.size + prefix > usize::MAX - n {
            return Err(Error::SizeOverflow);
        }
        self.size = self.size + prefix + n;
        Ok(())
    }

    /// `tryte [n]` is fixed-size: exactly the content trits.
    pub fn absorb_ntrytes(&mut self, ntrytes: &NTrytes) -> (r: Result<(), Error>)
        ensures
            ntrytes@.len() % 3 != 0 ==> r == Err::<(), Error>(Error::LengthNotMultipleOf3)
                && *final(self) == *old(self),
            ntrytes@.len() % 3 == 0 && fits(old(self).size as nat, ntrytes@.len()) ==> r is Ok
                && final(self).size == old(self).size + ntrytes@.len(),
            ntrytes@.len() % 3 == 0 && !fits(old(self).size as nat, ntrytes@.len()) ==> r
                == Err::<(), Error>(Error::SizeOverflow) && *final(self) == *old(self),
    {
        let n = ntrytes.0.size();
        if n % 3 != 0 {
            return Err(Error::LengthNotMultipleOf3);
        }
        self.add(n)
    }

    /// An MSS public key has fixed size.
    pub fn absorb_mss_pk(&mut self, pk: &mss::PublicKey) -> (r: Result<(), Error>)
        ensures
            pk.trits@.len() != mss::PK_SIZE ==> r == Err::<(), Error>(Error::KeySizeMismatch)
                && *final(self) == *old(self),
            pk.trits@.len() == mss::PK_SIZE && fits(old(self).size as nat, mss::PK_SIZE as nat)
                ==> r is Ok && final(self).size == old(self).size + mss::PK_SIZE,
            pk.trits@.len() == mss::PK_SIZE && !fits(old(self).size as nat, mss::PK_SIZE as nat)
                ==> r == Err::<(), Error>(Error::SizeOverflow) && *final(self) == *old(self),
    {
        if pk.trits().size() != mss::PK_SIZE {
            return Err(Error::KeySizeMismatch);
        }
        self.add(mss::PK_SIZE)
    }

    /// An NTRU public key has fixed size.
    pub fn absorb_ntru_pk(&mut self, pk: &ntru::PublicKey) -> (r: Result<(), Error>)
        ensures
            pk.trits@.len() != ntru::PK_SIZE ==> r == Err::<(), Error>(Error::KeySizeMismatch)
                && *final(self) == *old(self),
            pk.trits@.len() == ntru::PK_SIZE && fits(old(self).size as nat, ntru::PK_SIZE as nat)
                ==> r is Ok && final(self).size == old(self).size + ntru::PK_SIZE,
            pk.trits@.len() == ntru::PK_SIZE && !fits(old(self).size as nat, ntru::PK_SIZE as nat)
                ==> r == Err::<(), Error>(Error::SizeOverflow) && *final(self) == *old(self),
    {
        if pk.trits().size() != ntru::PK_SIZE {
            return Err(Error::KeySizeMismatch);
        }
        self.add(ntru::PK_SIZE)
    }

    /// External values are not encoded in the trinary stream.
    pub fn absorb_external_ntrytes(&mut self, _val: &External<NTrytes>) -> (r: Result<(), Error>)
        ensures
            r is Ok,
            *final(self) == *old(self),
    {
        Ok(())
    }

    /// External squeezed values are not encoded.
    pub fn squeeze_external_ntrytes(&mut self, _val: &External<NTrytes>) -> (r: Result<(), Error>)
        ensures
            r is Ok,
            *final(self) == *old(self),
    {
        Ok(())
    }

    /// External squeezed tags are not encoded.
    pub fn squeeze_external_mac(&mut self, _val: &External<Mac>) -> (r: Result<(), Error>)
        ensures
            r is Ok,
            *final(self) == *old(self),
    {
        Ok(())
    }

    /// A `Mac` is squeezed onto the wire like fixed trytes.
    pub fn squeeze_mac(&mut self, mac: &Mac) -> (r: Result<(), Error>)
        ensures
            mac.0 % 3 != 0 ==> r == Err::<(), Error>(Error::LengthNotMultipleOf3) && *final(self)
                == *old(self),
            mac.0 % 3 == 0 && fits(old(self).size as nat, mac.0 as nat) ==> r is Ok && final(self).size == old(self).size + mac.0,
            mac.0 % 3 == 0 && !fits(old(self).size as nat, mac.0 as nat) ==> r == Err::<(), Error>(
                Error::SizeOverflow,
            ) && *final(self) == *old(self),
    {
        if mac.0 % 3 != 0 {
            return Err(Error::LengthNotMultipleOf3);
        }
        self.add(mac.0)
    }

    /// Masked `Trint3`: same wire length as absorbed.
    pub fn mask_trint3(&mut self, _val: &Trint3) -> (r: Result<(), Error>)
        ensures
            fits(old(self).size as nat, 3) ==> r is Ok && final(self).size == old(self).size + 3,
            !fits(old(self).size as nat, 3) ==> r == Err::<(), Error>(Error::SizeOverflow)
                && *final(self) == *old(self),
    {
        self.add(3)
    }

    /// Masked `Size`: same wire length as absorbed.
    pub fn mask_size(&mut self, val: &Size) -> (r: Result<(), Error>)
        ensures
            fits(old(self).size as nat, sizeof_sizet(val.0 as nat)) ==> r is Ok && final(self).size == old(self).size + sizeof_sizet(val.0 as nat),
            !fits(old(self).size as nat, sizeof_sizet(val.0 as nat)) ==> r == Err::<(), Error>(
                Error::SizeOverflow,
            ) && *final(self) == *old(self),
    {
        let d = size_trytes_exec(val.0);
        self.add(3 + 3 * d)
    }

    /// Masked fixed trytes: the content trits, encrypted in place.
    pub fn mask_ntrytes(&mut self, val: &NTrytes) -> (r: Result<(), Error>)
        ensures
            val@.len() % 3 != 0 ==> r == Err::<(), Error>(Error::LengthNotMultipleOf3)
                && *final(self) == *old(self),
            val@.len() % 3 == 0 && fits(old(self).size as nat, val@.len()) ==> r is Ok && final(self).size == old(self).size + val@.len(),
            val@.len() % 3 == 0 && !fits(old(self).size as nat, val@.len()) ==> r
                == Err::<(), Error>(Error::SizeOverflow) && *final(self) == *old(self),
    {
        let n = val.0.size();
        if n % 3 != 0 {
            return Err(Error::LengthNotMultipleOf3);
        }
        self.add(n)
    }

    /// Masked `Trytes`: the size prefix is masked too.
    pub fn mask_trytes(&mut self, trytes: &Trytes) -> (r: Result<(), Error>)
        ensures
            trytes@.len() % 3 != 0 ==> r == Err::<(), Error>(Error::LengthNotMultipleOf3)
                && *final(self) == *old(self),
            trytes@.len() % 3 == 0 && fits(
                old(self).size as nat,
                sizeof_sizet(trytes@.len() / 3) + trytes@.len(),
            ) ==> r is Ok && final(self).size == old(self).size + sizeof_sizet(
                trytes@.len() / 3,
            ) + trytes@.len(),
            trytes@.len() % 3 == 0 && !fits(
                old(self).size as nat,
                sizeof_sizet(trytes@.len() / 3) + trytes@.len(),
            ) ==> r == Err::<(), Error>(Error::SizeOverflow) && *final(self) == *old(self),
    {
        let n = trytes.0.size();
        if n % 3 != 0 {
            return Err(Error::LengthNotMultipleOf3);
        }
        let d = size_trytes_exec(n / 3);
        let prefix = 3 + 3 * d;
        if self.size > usize::MAX - prefix {
            return Err(Error::SizeOverflow);
        }
        if self.size + prefix > usize::MAX - n {
            return Err(Error::SizeOverflow);
        }
        self.size = self.size + prefix + n;
        Ok(())
    }

    /// A masked NTRU public key has fixed size.
    pub fn mask_ntru_pk(&mut self, pk: &ntru::PublicKey) -> (r: Result<(), Error>)
        ensures
            pk.trits@.len() != ntru::PK_SIZE ==> r == Err::<(), Error>(Error::KeySizeMismatch)
                && *final(self) == *old(self),
            pk.trits@.len() == ntru::PK_SIZE && fits(old(self).size as nat, ntru::PK_SIZE as nat)
                ==> r is Ok && final(self).size == old(self).size + ntru::PK_SIZE,
            pk.trits@.len() == ntru::PK_SIZE && !fits(old(self).size as nat, ntru::PK_SIZE as nat)
                ==> r == Err::<(), Error>(Error::SizeOverflow) && *final(self) == *old(self),
    {
        if pk.trits().size() != ntru::PK_SIZE {
            return Err(Error::KeySizeMismatch);
        }
        self.add(ntru::PK_SIZE)
    }

    /// A masked MSS public key has fixed size.
    pub fn mask_mss_pk(&mut self, pk: &mss::PublicKey) -> (r: Result<(), Error>)
        ensures
            pk.trits@.len() != mss::PK_SIZE ==> r == Err::<(), Error>(Error::KeySizeMismatch)
                && *final(self) == *old(self),
            pk.trits@.len() == mss::PK_SIZE && fits(old(self).size as nat, mss::PK_SIZE as nat)
                ==> r is Ok && final(self).size == old(self).size + mss::PK_SIZE,
            pk.trits@.len() == mss::PK_SIZE && !fits(old(self).size as nat, mss::PK_SIZE as nat)
                ==> r == Err::<(), Error>(Error::SizeOverflow) && *final(self) == *old(self),
    {
        if pk.trits().size() != mss::PK_SIZE {
            return Err(Error::KeySizeMismatch);
        }
        self.add(mss::PK_SIZE)
    }

    /// Skipped `Trint3`: just encoded.
    pub fn skip_trint3(&mut self, _val: &Trint3) -> (r: Result<(), Error>)
        ensures
            fits(old(self).size as nat, 3) ==> r is Ok && final(self).size == old(self).size + 3,
            !fits(old(self).size as nat, 3) ==> r == Err::<(), Error>(Error::SizeOverflow)
                && *final(self) == *old(self),
    {
        self.add(3)
    }

    /// Skipped `Size`: just encoded.
    pub fn skip_size(&mut self, val: &Size) -> (r: Result<(), Error>)
        ensures
            fits(old(self).size as nat, sizeof_sizet(val.0 as nat)) ==> r is Ok && final(self).size == old(self).size + sizeof_sizet(val.0 as nat),
            !fits(old(self).size as nat, sizeof_sizet(val.0 as nat)) ==> r == Err::<(), Error>(
                Error::SizeOverflow,
            ) && *final(self) == *old(self),
    {
        let d = size_trytes_exec(val.0);
        self.add(3 + 3 * d)
    }

    /// Skipped `Trytes`: length prefix plus content.
    pub fn skip_trytes(&mut self, trytes: &Trytes) -> (r: Result<(), Error>)
        ensures
            trytes@.len() % 3 != 0 ==> r == Err::<(), Error>(Error::LengthNotMultipleOf3)
                && *final(self) == *old(self),
            trytes@.len() % 3 == 0 && fits(
                old(self).size as nat,
                sizeof_sizet(trytes@.len() / 3) + trytes@.len(),
            ) ==> r is Ok && final(self).size == old(self).size + sizeof_sizet(
                trytes@.len() / 3,
            ) + trytes@.len(),
            trytes@.len() % 3 == 0 && !fits(
                old(self).size as nat,
                sizeof_sizet(trytes@.len() / 3) + trytes@.len(),
            ) ==> r == Err::<(), Error>(Error::SizeOverflow) && *final(self) == *old(self),
    {
        let n = trytes.0.size();
        if n % 3 != 0 {
            return Err(Error::LengthNotMultipleOf3);
        }
        let d = size_trytes_exec(n / 3);
        let prefix = 3 + 3 * d;
        if self.size > usize::MAX - prefix {
            return Err(Error::SizeOverflow);
        }
        if self.size + prefix > usize::MAX - n {
            return Err(Error::SizeOverflow);
        }
        self.size = self.size + prefix + n;
        Ok(())
    }

    /// Skipped fixed trytes: just the content.
    pub fn skip_ntrytes(&mut self, ntrytes: &NTrytes) -> (r: Result<(), Error>)
        ensures
            ntrytes@.len() % 3 != 0 ==> r == Err::<(), Error>(Error::LengthNotMultipleOf3)
                && *final(self) == *old(self),
            ntrytes@.len() % 3 == 0 && fits(old(self).size as nat, ntrytes@.len()) ==> r is Ok
                && final(self).size == old(self).size + ntrytes@.len(),
            ntrytes@.len() % 3 == 0 && !fits(old(self).size as nat, ntrytes@.len()) ==> r
                == Err::<(), Error>(Error::SizeOverflow) && *final(self) == *old(self),
    {
        let n = ntrytes.0.size();
        if n % 3 != 0 {
            return Err(Error::LengthNotMultipleOf3);
        }
        self.add(n)
    }

    /// Commit costs nothing in the trinary stream.
    pub fn commit(&mut self) -> (r: Result<(), Error>)
        ensures
            r is Ok,
            *final(self) == *old(self),
    {
        Ok(())
    }

    /// Signature size depends on Merkle tree height; signing needs an unused
    /// one-time key and a hash of the scheme's size.
    pub fn mssig(&mut self, sk: &mss::PrivateKey, hash: &External<NTrytes>) -> (r: Result<
        (),
        Error,
    >)
        requires
            sk.wf(),
        ensures
            hash.0@.len() != mss::HASH_SIZE ==> r == Err::<(), Error>(Error::HashSizeMismatch)
                && *final(self) == *old(self),
            hash.0@.len() == mss::HASH_SIZE && sk.used == sk.capacity() ==> r == Err::<(), Error>(
                Error::MssExhausted,
            ) && *final(self) == *old(self),
            hash.0@.len() == mss::HASH_SIZE && sk.used < sk.capacity() && fits(
                old(self).size as nat,
                mss::sig_size_v(sk.height as nat),
            ) ==> r is Ok && final(self).size == old(self).size + mss::sig_size_v(
                sk.height as nat,
            ),
            hash.0@.len() == mss::HASH_SIZE && sk.used < sk.capacity() && !fits(
                old(self).size as nat,
                mss::sig_size_v(sk.height as nat),
            ) ==> r == Err::<(), Error>(Error::SizeOverflow) && *final(self) == *old(self),
    {
        if hash.0.0.size() != mss::HASH_SIZE {
            return Err(Error::HashSizeMismatch);
        }
        if sk.private_keys_left() == 0 {
            return Err(Error::MssExhausted);
        }
        self.add(mss::sig_size(sk.height()))
    }

    /// Signing an already-squeezed hash: only the signature trits count.
    pub fn mssig_prehashed(&mut self, sk: &mss::PrivateKey, _hash: MssHashSig) -> (r: Result<
        (),
        Error,
    >)
        requires
            sk.wf(),
        ensures
            sk.used == sk.capacity() ==> r == Err::<(), Error>(Error::MssExhausted) && *final(self)
                == *old(self),
            sk.used < sk.capacity() && fits(old(self).size as nat, mss::sig_size_v(sk.height as nat))
                ==> r is Ok && final(self).size == old(self).size + mss::sig_size_v(
                sk.height as nat,
            ),
            sk.used < sk.capacity() && !fits(old(self).size as nat, mss::sig_size_v(sk.height as nat))
                ==> r == Err::<(), Error>(Error::SizeOverflow) && *final(self) == *old(self),
    {
        if sk.private_keys_left() == 0 {
            return Err(Error::MssExhausted);
        }
        self.add(mss::sig_size(sk.height()))
    }

    /// The encapsulated secret has fixed wire size.
    pub fn ntrukem(&mut self, _key: &ntru::PublicKey, secret: &NTrytes) -> (r: Result<(), Error>)
        ensures
            secret@.len() != ntru::KEY_SIZE ==> r == Err::<(), Error>(Error::KeySizeMismatch)
                && *final(self) == *old(self),
            secret@.len() == ntru::KEY_SIZE && fits(old(self).size as nat, ntru::EKEY_SIZE as nat)
                ==> r is Ok && final(self).size == old(self).size + ntru::EKEY_SIZE,
            secret@.len() == ntru::KEY_SIZE && !fits(old(self).size as nat, ntru::EKEY_SIZE as nat)
                ==> r == Err::<(), Error>(Error::SizeOverflow) && *final(self) == *old(self),
    {
        if secret.0.size() != ntru::KEY_SIZE {
            return Err(Error::KeySizeMismatch);
        }
        self.add(ntru::EKEY_SIZE)
    }

    /// A joined link contributes its own skip size; the referenced body is
    /// never re-emitted.
    pub fn join(&mut self, _store: &LinkStore, link: &NTrytes) -> (r: Result<(), Error>)
        ensures
            link@.len() % 3 != 0 ==> r == Err::<(), Error>(Error::LengthNotMultipleOf3)
                && *final(self) == *old(self),
            link@.len() % 3 == 0 && fits(old(self).size as nat, link@.len()) ==> r is Ok && final(self).size == old(self).size + link@.len(),
            link@.len() % 3 == 0 && !fits(old(self).size as nat, link@.len()) ==> r
                == Err::<(), Error>(Error::SizeOverflow) && *final(self) == *old(self),
    {
        let n = link.0.size();
        if n % 3 != 0 {
            return Err(Error::LengthNotMultipleOf3);
        }
        self.add(n)
    }

    /// Diagnostic only: reports the running total without changing it.
    pub fn dump(&self) -> (n: usize)
        ensures
            n == self.size,
    {
        self.size
    }
}

} // verus!
