use vstd::prelude::*;
use crate::errors::Error;
use crate::trits::{Trits, trits_wf};
use crate::types::{
    Trint3, Size, Trytes, NTrytes, Mac, External, dec_trint3, tryte_val, digits_val, tryte_of,
    pow27,
};
use crate::spongos::{Spongos, sp_absorb_s, sp_squeeze_s, sp_decrypt_s, sp_commit};
use crate::mss;
use crate::ntru;
use crate::link::{LinkStore, resolve_v, lemma_resolve_wf};

verus! {

/// The `n` wire trits starting at cursor `c`.
pub open spec fn seg(w: Seq<u8>, c: nat, n: nat) -> Seq<u8> {
    w.subrange(c as int, c as int + n as int)
}

/// The header and value a size parse at cursor `c` would see: the digit
/// count is the first tryte, the value is read from that many digit trytes.
pub open spec fn size_digits_at(w: Seq<u8>, c: nat) -> nat {
    tryte_val(seg(w, c, 3))
}

pub open spec fn size_value_at(w: Seq<u8>, c: nat) -> nat {
    digits_val(seg(w, c + 3, 3 * size_digits_at(w, c)), size_digits_at(w, c))
}

/// Does a whole size encoding fit the wire at `c`, with a value the machine
/// can hold?
pub open spec fn size_parse_ok(w: Seq<u8>, c: nat) -> bool {
    &&& c + 3 <= w.len()
    &&& size_digits_at(w, c) <= 14
    &&& c + 3 + 3 * size_digits_at(w, c) <= w.len()
    &&& size_value_at(w, c) <= usize::MAX
}

/// Reading pass: an input cursor over received trits plus a sponge seeded
/// like the writer's.  Every operation reads exactly the trits its wrap
/// counterpart wrote and evolves the sponge identically; squeezes and
/// signatures are compared and any mismatch aborts the parse.
pub struct Context {
    /// The received message.
    pub wire: Trits,
    /// How many trits have been consumed.
    pub cursor: usize,
    /// The transcript state.
    pub sponge: Spongos,
}

impl Context {
    pub open spec fn wf(&self) -> bool {
        &&& self.wire.wf()
        &&& self.cursor <= self.wire@.len()
        &&& self.sponge.wf()
    }

    /// Starts a reading pass over the given trits and sponge state.
    pub fn new(wire: Trits, sponge: Spongos) -> (r: Self)
        requires
            wire.wf(),
            sponge.wf(),
        ensures
            r.wire@ == wire@,
            r.cursor == 0,
            r.sponge@ == sponge@,
            r.wf(),
    {
        Context { wire, cursor: 0, sponge }
    }

    /// How many trits have been consumed so far.
    pub fn get_size(&self) -> (n: usize)
        ensures
            n == self.cursor,
    {
        self.cursor
    }

    /// Diagnostic only: the cursor position, for callers that log progress.
    pub fn dump(&self) -> (n: usize)
        ensures
            n == self.cursor,
    {
        self.cursor
    }

    /// Copies the next `n` trits and advances; the sponge is not touched.
    fn read_seg(&mut self, n: usize) -> (r: Result<Vec<u8>, Error>)
        requires
            old(self).wf(),
        ensures
            final(self).wire == old(self).wire,
            final(self).sponge == old(self).sponge,
            r is Ok <==> old(self).cursor + n <= old(self).wire@.len(),
            r is Ok ==> r.unwrap()@ == seg(old(self).wire@, old(self).cursor as nat, n as nat)
                && trits_wf(r.unwrap()@) && r.unwrap()@.len() == n && final(self).cursor == old(self).cursor + n,
            r is Err ==> r == Err::<Vec<u8>, Error>(Error::StreamTooShort) && *final(self) == *old(self),
            final(self).wf(),
    {
        let c = self.cursor;
        let len = self.wire.size();
        if n > len - c {
            return Err(Error::StreamTooShort);
        }
        let mut v: Vec<u8> = Vec::new();
        let mut i: usize = 0;
        while i < n
            invariant
                i <= n,
                c + n <= self.wire@.len(),
                c + n <= usize::MAX,
                self.wire.wf(),
                v@ == seg(self.wire@, c as nat, i as nat),
            decreases n - i,
        {
            v.push(self.wire.get(c + i));
            proof {
                assert(v@ =~= seg(self.wire@, c as nat, (i + 1) as nat));
            }
            i = i + 1;
        }
        self.cursor = c + n;
        Ok(v)
    }

    /// Absorbs a `Trint3` from the wire, exposing the decoded value.
    pub fn absorb_trint3(&mut self) -> (r: Result<Trint3, Error>)
        requires
            old(self).wf(),
        ensures
            final(self).wire == old(self).wire,
            r is Ok <==> old(self).cursor + 3 <= old(self).wire@.len(),
            r is Err ==> r == Err::<Trint3, Error>(Error::StreamTooShort) && *final(self) == *old(self),
            r is Ok ==> r.unwrap().0 == dec_trint3(
                seg(old(self).wire@, old(self).cursor as nat, 3),
            ) && r.unwrap().wf() && final(self).cursor == old(self).cursor + 3 && final(self).sponge@ == sp_absorb_s(
                old(self).sponge@,
                seg(old(self).wire@, old(self).cursor as nat, 3),
            ),
            final(self).wf(),
    {
        let v = self.read_seg(3)?;
        self.sponge.absorb(&v);
        let k = tryte_of(v[0], v[1], v[2]);
        proof {
            assert(seq![v@[0], v@[1], v@[2]] =~= v@);
        }
        Ok(Trint3(k as i8 - 13))
    }

    /// Absorbs a `Size` from the wire, exposing the decoded value.
    pub fn absorb_size(&mut self) -> (r: Result<Size, Error>)
        requires
            old(self).wf(),
        ensures
            final(self).wire == old(self).wire,
            r is Ok <==> size_parse_ok(old(self).wire@, old(self).cursor as nat),
            r is Err ==> *final(self) == *old(self) && (r == Err::<Size, Error>(
                Error::StreamTooShort,
            ) || r == Err::<Size, Error>(Error::SizeOverflow)),
            r is Ok ==> ({
                let c = old(self).cursor as nat;
                let w = old(self).wire@;
                let d = size_digits_at(w, c);
                &&& r.unwrap().0 == size_value_at(w, c)
                &&& final(self).cursor == c + 3 + 3 * d
                &&& final(self).sponge@ == sp_absorb_s(old(self).sponge@, seg(w, c, 3 + 3 * d))
            }),
            final(self).wf(),
    {
        let c = self.cursor;
        let len = self.wire.size();
        if len - c < 3 {
            return Err(Error::StreamTooShort);
        }
        let d = tryte_of(self.wire.get(c), self.wire.get(c + 1), self.wire.get(c + 2)) as usize;
        proof {
            assert(seq![old(self).wire@[c as int], old(self).wire@[c + 1], old(self).wire@[c + 2]]
                =~= seg(old(self).wire@, c as nat, 3));
        }
        if d > 14 {
            return Err(Error::SizeOverflow);
        }
        if len - (c + 3) < 3 * d {
            return Err(Error::StreamTooShort);
        }
        let ghost w = self.wire@;
        let ghost dig = seg(w, c as nat + 3, 3 * d as nat);
        let mut acc: u128 = 0;
        let mut j: usize = d;
        proof {
            assert(dig.skip(3 * d as int) =~= Seq::<u8>::empty());
            reveal_with_fuel(pow27, 16);
            assert(pow27(13) < 0x4000000000000000);
        }
        while j > 0
            invariant
                j <= d,
                d <= 14,
                c + 3 + 3 * d <= self.wire@.len(),
                c + 3 + 3 * d <= usize::MAX,
                self.wire.wf(),
                self.wire@ == w,
                dig == seg(w, c as nat + 3, 3 * d as nat),
                acc == digits_val(dig.skip(3 * j as int), (d - j) as nat),
                acc < pow27((d - j) as nat),
                pow27(13) < 0x4000000000000000,
            decreases j,
        {
            let base = c + 3 + 3 * (j - 1);
            let t = tryte_of(self.wire.get(base), self.wire.get(base + 1), self.wire.get(base + 2));
            proof {
                let jj = j - 1;
                assert(dig.skip(3 * jj)[0] == w[base as int]);
                assert(dig.skip(3 * jj)[1] == w[base + 1]);
                assert(dig.skip(3 * jj)[2] == w[base + 2]);
                assert(seq![w[base as int], w[base + 1], w[base + 2]] =~= seg(w, base as nat, 3));
                assert(tryte_val(dig.skip(3 * jj)) == tryte_val(seg(w, base as nat, 3)));
                assert(dig.skip(3 * jj).skip(3) =~= dig.skip(3 * j as int));
                assert(digits_val(dig.skip(3 * jj), (d - jj) as nat) == tryte_val(dig.skip(3 * jj))
                    + 27 * digits_val(dig.skip(3 * j as int), (d - j) as nat));
                crate::types::lemma_pow27_le((d - j) as nat, 13);
            }
            acc = 27 * acc + (t as u128);
            j = j - 1;
        }
        proof {
            assert(dig.skip(0) =~= dig);
        }
        if acc > usize::MAX as u128 {
            return Err(Error::SizeOverflow);
        }
        let total = 3 + 3 * d;
        let v = match self.read_seg(total) {
            Ok(v) => v,
            Err(_) => {
                proof {
                    assert(false);
                }
                return Err(Error::StreamTooShort);
            },
        };
        self.sponge.absorb(&v);
        Ok(Size(acc as usize))
    }

    /// Absorbs `Trytes`: the masked-free variable-length form, size prefix
    /// then content.
    pub fn absorb_trytes(&mut self) -> (r: Result<Trytes, Error>)
        requires
            old(self).wf(),
        ensures
            final(self).wire == old(self).wire,
            r is Ok <==> ({
                let c = old(self).cursor as nat;
                let w = old(self).wire@;
                size_parse_ok(w, c) && c + 3 + 3 * size_digits_at(w, c) + 3 * size_value_at(w, c)
                    <= w.len()
            }),
            r is Err ==> (r == Err::<Trytes, Error>(Error::StreamTooShort) || r == Err::<
                Trytes,
                Error,
            >(Error::SizeOverflow)),
            r is Ok ==> ({
                let c = old(self).cursor as nat;
                let w = old(self).wire@;
                let d = size_digits_at(w, c);
                let n = 3 * size_value_at(w, c);
                &&& r.unwrap()@ == seg(w, c + 3 + 3 * d, n)
                &&& r.unwrap().wf()
                &&& final(self).cursor == c + 3 + 3 * d + n
                &&& final(self).sponge@ == sp_absorb_s(
                    sp_absorb_s(old(self).sponge@, seg(w, c, 3 + 3 * d)),
                    seg(w, c + 3 + 3 * d, n),
                )
            }),
            final(self).wf(),
    {
        let size = self.absorb_size()?;
        let n = size.0;
        let c2 = self.cursor;
        let len = self.wire.size();
        if n > (len - c2) / 3 {
            return Err(Error::StreamTooShort);
        }
        let v = match self.read_seg(3 * n) {
            Ok(v) => v,
            Err(_) => {
                proof {
                    assert(false);
                }
                return Err(Error::StreamTooShort);
            },
        };
        self.sponge.absorb(&v);
        Ok(Trytes(Trits(v)))
    }

    /// Absorbs fixed trytes of the length the layout declares.
    pub fn absorb_ntrytes(&mut self, n: usize) -> (r: Result<NTrytes, Error>)
        requires
            old(self).wf(),
        ensures
            final(self).wire == old(self).wire,
            n % 3 != 0 ==> r == Err::<NTrytes, Error>(Error::LengthNotMultipleOf3) && *final(self)
                == *old(self),
            n % 3 == 0 ==> (r is Ok <==> old(self).cursor + n <= old(self).wire@.len()),
            n % 3 == 0 && r is Err ==> r == Err::<NTrytes, Error>(Error::StreamTooShort) && *final(self) == *old(self),
            r is Ok ==> r.unwrap()@ == seg(old(self).wire@, old(self).cursor as nat, n as nat)
                && r.unwrap().wf() && final(self).cursor == old(self).cursor + n && final(self).sponge@ == sp_absorb_s(
                old(self).sponge@,
                seg(old(self).wire@, old(self).cursor as nat, n as nat),
            ),
            final(self).wf(),
    {
        if n % 3 != 0 {
            return Err(Error::LengthNotMultipleOf3);
        }
        let v = self.read_seg(n)?;
        self.sponge.absorb(&v);
        Ok(NTrytes(Trits(v)))
    }

    /// Absorbs an MSS public key from the wire.
    pub fn absorb_mss_pk(&mut self) -> (r: Result<mss::PublicKey, Error>)
        requires
            old(self).wf(),
        ensures
            final(self).wire == old(self).wire,
            r is Ok <==> old(self).cursor + mss::PK_SIZE <= old(self).wire@.len(),
            r is Err ==> r == Err::<mss::PublicKey, Error>(Error::StreamTooShort) && *final(self)
                == *old(self),
            r is Ok ==> r.unwrap().trits@ == seg(
                old(self).wire@,
                old(self).cursor as nat,
                mss::PK_SIZE as nat,
            ) && r.unwrap().wf() && final(self).cursor == old(self).cursor + mss::PK_SIZE && final(self).sponge@ == sp_absorb_s(
                old(self).sponge@,
                seg(old(self).wire@, old(self).cursor as nat, mss::PK_SIZE as nat),
            ),
            final(self).wf(),
    {
        let v = self.read_seg(mss::PK_SIZE)?;
        self.sponge.absorb(&v);
        Ok(mss::PublicKey { trits: Trits(v) })
    }

    /// Absorbs an NTRU public key from the wire.
    pub fn absorb_ntru_pk(&mut self) -> (r: Result<ntru::PublicKey, Error>)
        requires
            old(self).wf(),
        ensures
            final(self).wire == old(self).wire,
            r is Ok <==> old(self).cursor + ntru::PK_SIZE <= old(self).wire@.len(),
            r is Err ==> r == Err::<ntru::PublicKey, Error>(Error::StreamTooShort) && *final(self)
                == *old(self),
            r is Ok ==> r.unwrap().trits@ == seg(
                old(self).wire@,
                old(self).cursor as nat,
                ntru::PK_SIZE as nat,
            ) && r.unwrap().wf() && final(self).cursor == old(self).cursor + ntru::PK_SIZE
                && final(self).sponge@ == sp_absorb_s(
                old(self).sponge@,
                seg(old(self).wire@, old(self).cursor as nat, ntru::PK_SIZE as nat),
            ),
            final(self).wf(),
    {
        let v = self.read_seg(ntru::PK_SIZE)?;
        self.sponge.absorb(&v);
        Ok(ntru::PublicKey { trits: Trits(v) })
    }

    /// Absorbs an external value known out-of-band: zero wire trits, but the
    /// transcript takes the content in, as the writer's did.
    pub fn absorb_external_ntrytes(&mut self, val: &External<NTrytes>) -> (r: Result<(), Error>)
        requires
            old(self).wf(),
            val.0.wf(),
        ensures
            r is Ok,
            final(self).wire == old(self).wire,
            final(self).cursor == old(self).cursor,
            final(self).sponge@ == sp_absorb_s(old(self).sponge@, val.0@),
            final(self).wf(),
    {
        self.sponge.absorb(&val.0.0.0);
        Ok(())
    }

    /// Verifies a squeezed tag: recomputes the expected sponge output and
    /// compares it against the wire.  A mismatch is tampering and aborts.
    pub fn squeeze_mac(&mut self, mac: &Mac) -> (r: Result<(), Error>)
        requires
            old(self).wf(),
        ensures
            final(self).wire == old(self).wire,
            mac.0 % 3 != 0 ==> r == Err::<(), Error>(Error::LengthNotMultipleOf3) && *final(self)
                == *old(self),
            mac.0 % 3 == 0 && old(self).cursor + mac.0 > old(self).wire@.len() ==> r
                == Err::<(), Error>(Error::StreamTooShort) && *final(self) == *old(self),
            mac.0 % 3 == 0 && old(self).cursor + mac.0 <= old(self).wire@.len() ==> ({
                let expected = sp_squeeze_s(old(self).sponge@, mac.0 as nat).0;
                let got = seg(old(self).wire@, old(self).cursor as nat, mac.0 as nat);
                &&& (r is Ok <==> got == expected)
                &&& (got != expected ==> r == Err::<(), Error>(Error::AuthMismatch) && final(self).cursor == old(self).cursor && final(self).sponge@ == old(self).sponge@)
                &&& (got == expected ==> final(self).cursor == old(self).cursor + mac.0 && final(self).sponge@ == sp_squeeze_s(old(self).sponge@, mac.0 as nat).1)
            }),
            final(self).wf(),
    {
        if mac.0 % 3 != 0 {
            return Err(Error::LengthNotMultipleOf3);
        }
        let c = self.cursor;
        let saved = self.sponge.duplicate();
        let v = self.read_seg(mac.0)?;
        let expected = self.sponge.squeeze(mac.0);
        let mut i: usize = 0;
        while i < mac.0
            invariant
                i <= mac.0,
                mac.0 % 3 == 0,
                v@.len() == mac.0,
                expected@.len() == mac.0,
                forall|q: int| 0 <= q < i ==> v@[q] == expected@[q],
                self.wire == old(self).wire,
                self.wf(),
                c == old(self).cursor,
                saved@ == old(self).sponge@,
                saved.wf(),
                old(self).cursor + mac.0 <= old(self).wire@.len(),
                self.cursor == old(self).cursor + mac.0,
                self.sponge@ == sp_squeeze_s(old(self).sponge@, mac.0 as nat).1,
                v@ == seg(old(self).wire@, old(self).cursor as nat, mac.0 as nat),
                expected@ == sp_squeeze_s(old(self).sponge@, mac.0 as nat).0,
            decreases mac.0 - i,
        {
            if v[i] != expected[i] {
                proof {
                    assert(v@ != expected@);
                }
                self.cursor = c;
                self.sponge = saved;
                return Err(Error::AuthMismatch);
            }
            i = i + 1;
        }
        proof {
            assert(v@ =~= expected@);
        }
        Ok(())
    }

    /// Squeezes `n` trits of output for the caller, reading nothing.
    pub fn squeeze_external_ntrytes(&mut self, n: usize) -> (r: NTrytes)
        requires
            old(self).wf(),
        ensures
            r@ == sp_squeeze_s(old(self).sponge@, n as nat).0,
            r.wf(),
            r@.len() == n,
            final(self).wire == old(self).wire,
            final(self).cursor == old(self).cursor,
            final(self).sponge@ == sp_squeeze_s(old(self).sponge@, n as nat).1,
            final(self).wf(),
    {
        let out = self.sponge.squeeze(n);
        NTrytes(Trits(out))
    }

    /// Advances the sponge past an external tag that was never on the wire.
    pub fn squeeze_external_mac(&mut self, mac: &Mac) -> (r: Result<(), Error>)
        requires
            old(self).wf(),
        ensures
            r is Ok,
            final(self).wire == old(self).wire,
            final(self).cursor == old(self).cursor,
            final(self).sponge@ == sp_squeeze_s(old(self).sponge@, mac.0 as nat).1,
            final(self).wf(),
    {
        let _ = self.sponge.squeeze(mac.0);
        Ok(())
    }

    /// Unmasks a `Trint3`: reads ciphertext, decrypts with the keystream and
    /// folds the cleartext in, staying in lockstep with the writer.
    pub fn mask_trint3(&mut self) -> (r: Result<Trint3, Error>)
        requires
            old(self).wf(),
        ensures
            final(self).wire == old(self).wire,
            r is Ok <==> old(self).cursor + 3 <= old(self).wire@.len(),
            r is Err ==> r == Err::<Trint3, Error>(Error::StreamTooShort) && *final(self) == *old(self),
            r is Ok ==> ({
                let ct = seg(old(self).wire@, old(self).cursor as nat, 3);
                &&& r.unwrap().0 == dec_trint3(sp_decrypt_s(old(self).sponge@, ct).0)
                &&& r.unwrap().wf()
                &&& final(self).cursor == old(self).cursor + 3
                &&& final(self).sponge@ == sp_decrypt_s(old(self).sponge@, ct).1
            }),
            final(self).wf(),
    {
        let v = self.read_seg(3)?;
        let plain = self.sponge.decrypt(&v);
        let k = tryte_of(plain[0], plain[1], plain[2]);
        proof {
            assert(seq![plain@[0], plain@[1], plain@[2]] =~= plain@);
        }
        Ok(Trint3(k as i8 - 13))
    }

    /// Unmasks fixed trytes of the declared length.
    pub fn mask_ntrytes(&mut self, n: usize) -> (r: Result<NTrytes, Error>)
        requires
            old(self).wf(),
        ensures
            final(self).wire == old(self).wire,
            n % 3 != 0 ==> r == Err::<NTrytes, Error>(Error::LengthNotMultipleOf3) && *final(self)
                == *old(self),
            n % 3 == 0 ==> (r is Ok <==> old(self).cursor + n <= old(self).wire@.len()),
            n % 3 == 0 && r is Err ==> r == Err::<NTrytes, Error>(Error::StreamTooShort) && *final(self) == *old(self),
            r is Ok ==> ({
                let ct = seg(old(self).wire@, old(self).cursor as nat, n as nat);
                &&& r.unwrap()@ == sp_decrypt_s(old(self).sponge@, ct).0
                &&& r.unwrap().wf()
                &&& final(self).cursor == old(self).cursor + n
                &&& final(self).sponge@ == sp_decrypt_s(old(self).sponge@, ct).1
            }),
            final(self).wf(),
    {
        if n % 3 != 0 {
            return Err(Error::LengthNotMultipleOf3);
        }
        let v = self.read_seg(n)?;
        let plain = self.sponge.decrypt(&v);
        Ok(NTrytes(Trits(plain)))
    }

    /// Skips a `Trint3`: read verbatim, not authenticated.
    pub fn skip_trint3(&mut self) -> (r: Result<Trint3, Error>)
        requires
            old(self).wf(),
        ensures
            final(self).wire == old(self).wire,
            final(self).sponge == old(self).sponge,
            r is Ok <==> old(self).cursor + 3 <= old(self).wire@.len(),
            r is Err ==> r == Err::<Trint3, Error>(Error::StreamTooShort) && *final(self) == *old(self),
            r is Ok ==> r.unwrap().0 == dec_trint3(
                seg(old(self).wire@, old(self).cursor as nat, 3),
            ) && r.unwrap().wf() && final(self).cursor == old(self).cursor + 3,
            final(self).wf(),
    {
        let v = self.read_seg(3)?;
        let k = tryte_of(v[0], v[1], v[2]);
        proof {
            assert(seq![v@[0], v@[1], v@[2]] =~= v@);
        }
        Ok(Trint3(k as i8 - 13))
    }

    /// Skips fixed trytes: read verbatim.
    pub fn skip_ntrytes(&mut self, n: usize) -> (r: Result<NTrytes, Error>)
        requires
            old(self).wf(),
        ensures
            final(self).wire == old(self).wire,
            final(self).sponge == old(self).sponge,
            n % 3 != 0 ==> r == Err::<NTrytes, Error>(Error::LengthNotMultipleOf3) && *final(self)
                == *old(self),
            n % 3 == 0 ==> (r is Ok <==> old(self).cursor + n <= old(self).wire@.len()),
            n % 3 == 0 && r is Err ==> r == Err::<NTrytes, Error>(Error::StreamTooShort) && *final(self) == *old(self),
            r is Ok ==> r.unwrap()@ == seg(old(self).wire@, old(self).cursor as nat, n as nat)
                && r.unwrap().wf() && final(self).cursor == old(self).cursor + n,
            final(self).wf(),
    {
        if n % 3 != 0 {
            return Err(Error::LengthNotMultipleOf3);
        }
        let v = self.read_seg(n)?;
        Ok(NTrytes(Trits(v)))
    }

    /// Commit: zero wire trits, closes the sponge's permutation block.
    pub fn commit(&mut self) -> (r: Result<(), Error>)
        requires
            old(self).wf(),
        ensures
            r is Ok,
            final(self).wire == old(self).wire,
            final(self).cursor == old(self).cursor,
            final(self).sponge@ == sp_commit(old(self).sponge@),
            final(self).wf(),
    {
        self.sponge.commit();
        Ok(())
    }

    /// Verifies a detachable signature over an external hash against the
    /// signer's public commitment.  The sponge is not advanced.
    pub fn mssig(&mut self, pk: &mss::PublicKey, height: usize, hash: &External<NTrytes>) -> (r:
        Result<(), Error>)
        requires
            old(self).wf(),
            pk.wf(),
            hash.0.wf(),
            height <= mss::MAX_HEIGHT,
        ensures
            final(self).wire == old(self).wire,
            final(self).sponge == old(self).sponge,
            hash.0@.len() != mss::HASH_SIZE ==> r == Err::<(), Error>(Error::HashSizeMismatch)
                && *final(self) == *old(self),
            hash.0@.len() == mss::HASH_SIZE && old(self).cursor + mss::sig_size_v(height as nat)
                > old(self).wire@.len() ==> r == Err::<(), Error>(Error::StreamTooShort) && *final(self) == *old(self),
            hash.0@.len() == mss::HASH_SIZE && old(self).cursor + mss::sig_size_v(height as nat)
                <= old(self).wire@.len() ==> ({
                let sig = seg(
                    old(self).wire@,
                    old(self).cursor as nat,
                    mss::sig_size_v(height as nat),
                );
                &&& (r is Ok <==> mss::sig_ok(pk.trits@, height as nat, hash.0@, sig))
                &&& (r is Ok ==> final(self).cursor == old(self).cursor + mss::sig_size_v(
                    height as nat,
                ))
                &&& (!mss::sig_ok(pk.trits@, height as nat, hash.0@, sig) ==> r == Err::<
                    (),
                    Error,
                >(Error::AuthMismatch) && final(self).cursor == old(self).cursor)
            }),
            final(self).wf(),
    {
        if hash.0.0.size() != mss::HASH_SIZE {
            return Err(Error::HashSizeMismatch);
        }
        let c = self.cursor;
        let n = mss::sig_size(height);
        let sig = self.read_seg(n)?;
        if mss::verify(&pk.trits, height, &hash.0.0, &sig) {
            Ok(())
        } else {
            self.cursor = c;
            Err(Error::AuthMismatch)
        }
    }

    /// Decapsulates a secret with the private key; any well-formed
    /// ciphertext yields the secret it carries under the matching key.
    pub fn ntrukem(&mut self, sk: &ntru::PrivateKey) -> (r: Result<NTrytes, Error>)
        requires
            old(self).wf(),
            sk.wf(),
        ensures
            final(self).wire == old(self).wire,
            final(self).sponge == old(self).sponge,
            r is Ok <==> old(self).cursor + ntru::EKEY_SIZE <= old(self).wire@.len(),
            r is Err ==> r == Err::<NTrytes, Error>(Error::StreamTooShort) && *final(self) == *old(self),
            r is Ok ==> r.unwrap()@ == ntru::decap_v(
                sk.trits@,
                seg(old(self).wire@, old(self).cursor as nat, ntru::EKEY_SIZE as nat),
            ) && r.unwrap().wf() && final(self).cursor == old(self).cursor + ntru::EKEY_SIZE,
            final(self).wf(),
    {
        let ct = self.read_seg(ntru::EKEY_SIZE)?;
        let secret = ntru::decap(&sk.trits, &ct);
        Ok(NTrytes(secret))
    }

    /// A snapshot of the sponge, for reading a fork on an independent branch.
    pub fn fork_sponge(&self) -> (s: Spongos)
        ensures
            s@ == self.sponge@,
    {
        self.sponge.duplicate()
    }

    /// Rewinds the transcript to a saved branch point; the cursor keeps
    /// whatever the fork consumed.
    pub fn restore_sponge(&mut self, s: Spongos)
        requires
            old(self).wf(),
            s.wf(),
        ensures
            final(self).wire == old(self).wire,
            final(self).cursor == old(self).cursor,
            final(self).sponge@ == s@,
            final(self).wf(),
    {
        self.sponge = s;
    }

    /// Joins a previously produced message: reads its link verbatim, then
    /// folds the stored commitment into the transcript.
    pub fn join(&mut self, store: &LinkStore, link_len: usize) -> (r: Result<NTrytes, Error>)
        requires
            old(self).wf(),
            store.wf(),
        ensures
            final(self).wire == old(self).wire,
            link_len % 3 != 0 ==> r == Err::<NTrytes, Error>(Error::LengthNotMultipleOf3)
                && *final(self) == *old(self),
            link_len % 3 == 0 && old(self).cursor + link_len > old(self).wire@.len() ==> r
                == Err::<NTrytes, Error>(Error::StreamTooShort) && *final(self) == *old(self),
            link_len % 3 == 0 && old(self).cursor + link_len <= old(self).wire@.len() ==> ({
                let l = seg(old(self).wire@, old(self).cursor as nat, link_len as nat);
                &&& (r is Ok <==> resolve_v(store@, l) is Some)
                &&& (resolve_v(store@, l) is None ==> r == Err::<NTrytes, Error>(
                    Error::LinkNotFound,
                ) && final(self).cursor == old(self).cursor && final(self).sponge@ == old(self).sponge@)
                &&& (resolve_v(store@, l) is Some ==> r.unwrap()@ == l && final(self).cursor
                    == old(self).cursor + link_len && final(self).sponge@ == sp_absorb_s(
                    old(self).sponge@,
                    resolve_v(store@, l).unwrap(),
                ))
            }),
            final(self).wf(),
    {
        if link_len % 3 != 0 {
            return Err(Error::LengthNotMultipleOf3);
        }
        let c = self.cursor;
        let v = self.read_seg(link_len)?;
        let link = Trits(v);
        let found = store.resolve(&link);
        match found {
            None => {
                self.cursor = c;
                Err(Error::LinkNotFound)
            },
            Some(commitment) => {
                proof {
                    lemma_resolve_wf(store, link@);
                }
                self.sponge.absorb(&commitment.0);
                Ok(NTrytes(link))
            },
        }
    }
}

} // verus!
