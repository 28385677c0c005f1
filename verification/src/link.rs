use vstd::prelude::*;
use crate::trits::Trits;

verus! {

/// One resolved reference: a content-addressed link and the commitment of
/// the message it names.
pub struct StoreEntry {
    pub link: Trits,
    pub commitment: Trits,
}

/// Resolves links to previously produced messages, so a join can fold a
/// referenced message's commitment in without re-transmission.  The caller
/// owns and fills the store; the passes only look things up.
pub struct LinkStore {
    pub entries: Vec<StoreEntry>,
}

impl View for LinkStore {
    type V = Seq<(Seq<u8>, Seq<u8>)>;

    open spec fn view(&self) -> Seq<(Seq<u8>, Seq<u8>)> {
        Seq::new(self.entries@.len(), |i: int| (self.entries@[i].link@, self.entries@[i].commitment@))
    }
}

/// The first commitment stored under `l`, front to back.
pub open spec fn resolve_v(s: Seq<(Seq<u8>, Seq<u8>)>, l: Seq<u8>) -> Option<Seq<u8>>
    decreases s.len(),
{
    if s.len() == 0 {
        None
    } else if s[0].0 == l {
        Some(s[0].1)
    } else {
        resolve_v(s.skip(1), l)
    }
}

/// A commitment found in a sequence of well-formed pairs is itself made of
/// trits.
pub proof fn lemma_resolve_wf_seq(s: Seq<(Seq<u8>, Seq<u8>)>, l: Seq<u8>)
    requires
        forall|i: int| 0 <= i < s.len() ==> crate::trits::trits_wf((#[trigger] s[i]).1),
    ensures
        resolve_v(s, l) is Some ==> crate::trits::trits_wf(resolve_v(s, l).unwrap()),
    decreases s.len(),
{
    if s.len() > 0 && s[0].0 != l {
        assert(forall|i: int|
            0 <= i < s.skip(1).len() ==> crate::trits::trits_wf((#[trigger] s.skip(1)[i]).1));
        lemma_resolve_wf_seq(s.skip(1), l);
    }
}

/// The same, read off a well-formed store.
pub proof fn lemma_resolve_wf(store: &LinkStore, l: Seq<u8>)
    requires
        store.wf(),
    ensures
        resolve_v(store@, l) is Some ==> crate::trits::trits_wf(resolve_v(store@, l).unwrap()),
{
    assert(forall|i: int|
        0 <= i < store@.len() ==> crate::trits::trits_wf((#[trigger] store@[i]).1));
    lemma_resolve_wf_seq(store@, l);
}

impl LinkStore {
    pub open spec fn wf(&self) -> bool {
        forall|i: int|
            0 <= i < self.entries@.len() ==> (#[trigger] self.entries@[i]).link.wf()
                && self.entries@[i].commitment.wf()
    }

    pub fn new() -> (r: LinkStore)
        ensures
            r@ == Seq::<(Seq<u8>, Seq<u8>)>::empty(),
            r.wf(),
    {
        let r = LinkStore { entries: Vec::new() };
        proof {
            assert(r@ =~= Seq::<(Seq<u8>, Seq<u8>)>::empty());
        }
        r
    }

    pub fn add(&mut self, link: Trits, commitment: Trits)
        requires
            old(self).wf(),
            link.wf(),
            commitment.wf(),
        ensures
            final(self)@ == old(self)@.push((link@, commitment@)),
            final(self).wf(),
    {
        let ghost l = link@;
        let ghost c = commitment@;
        self.entries.push(StoreEntry { link, commitment });
        proof {
            assert(self@ =~= old(self)@.push((l, c)));
        }
    }

    /// Looks a link up; `None` when no message with that link was stored.
    pub fn resolve(&self, link: &Trits) -> (r: Option<&Trits>)
        ensures
            match r {
                Some(c) => resolve_v(self@, link@) == Some(c@),
                None => resolve_v(self@, link@) is None,
            },
    {
        let mut i: usize = 0;
        proof {
            assert(self@.skip(0) =~= self@);
        }
        while i < self.entries.len()
            invariant
                i <= self.entries@.len(),
                resolve_v(self@, link@) == resolve_v(self@.skip(i as int), link@),
            decreases self.entries@.len() - i,
        {
            if self.entries[i].link.same(link) {
                proof {
                    assert(self@.skip(i as int)[0] == (self.entries@[i as int].link@,
                        self.entries@[i as int].commitment@));
                }
                return Some(&self.entries[i].commitment);
            }
            proof {
                assert(self@.skip(i as int)[0] == (self.entries@[i as int].link@,
                    self.entries@[i as int].commitment@));
                assert(self@.skip(i as int).skip(1) =~= self@.skip(i + 1));
            }
            i = i + 1;
        }
        None
    }
}

} // verus!
