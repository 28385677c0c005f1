use vstd::prelude::*;

verus! {

/// Is every element of `s` a trit, that is, below 3?
pub open spec fn trits_wf(s: Seq<u8>) -> bool {
    forall|i: int| 0 <= i < s.len() ==> s[i] < 3
}

/// Trit addition: `a + b` modulo 3, written without `%` so that the solver
/// reasons about it by plain case analysis.
pub open spec fn tadd(a: u8, b: u8) -> u8 {
    if a + b < 3 {
        (a + b) as u8
    } else {
        (a + b - 3) as u8
    }
}

/// Trit subtraction: `a - b` modulo 3, the inverse of [`tadd`] in `a`.
pub open spec fn tsub(a: u8, b: u8) -> u8 {
    if a >= b {
        (a - b) as u8
    } else {
        (a + 3 - b) as u8
    }
}

pub proof fn lemma_tadd_tsub(a: u8, b: u8)
    requires
        a < 3,
        b < 3,
    ensures
        tsub(tadd(a, b), b) == a,
        tadd(tsub(a, b), b) == a,
        tadd(a, b) < 3,
        tsub(a, b) < 3,
{
}

/// A sequence of trits, one per byte, each in `{0, 1, 2}`.
pub struct Trits(pub Vec<u8>);

impl View for Trits {
    type V = Seq<u8>;

    open spec fn view(&self) -> Seq<u8> {
        self.0@
    }
}

impl Trits {
    pub open spec fn wf(&self) -> bool {
        trits_wf(self@)
    }

    pub fn new() -> (r: Trits)
        ensures
            r@ == Seq::<u8>::empty(),
            r.wf(),
    {
        Trits(Vec::new())
    }

    /// `n` zero trits.
    pub fn zero(n: usize) -> (r: Trits)
        ensures
            r@.len() == n,
            forall|i: int| 0 <= i < n ==> r@[i] == 0,
            r.wf(),
    {
        let mut v: Vec<u8> = Vec::new();
        let mut i: usize = 0;
        while i < n
            invariant
                i <= n,
                v@.len() == i,
                forall|j: int| 0 <= j < i ==> v@[j] == 0,
            decreases n - i,
        {
            v.push(0);
            i = i + 1;
        }
        Trits(v)
    }

    /// The number of trits held.
    pub fn size(&self) -> (n: usize)
        ensures
            n == self@.len(),
    {
        self.0.len()
    }

    pub fn get(&self, i: usize) -> (t: u8)
        requires
            i < self@.len(),
        ensures
            t == self@[i as int],
    {
        self.0[i]
    }

    pub fn push(&mut self, t: u8)
        requires
            t < 3,
        ensures
            final(self)@ == old(self)@.push(t),
    {
        self.0.push(t);
    }

    /// Validates that every byte is a trit; `None` where one is not.
    pub fn from_vec(v: Vec<u8>) -> (r: Option<Trits>)
        ensures
            r is Some <==> trits_wf(v@),
            r is Some ==> r->0@ == v@ && r->0.wf(),
    {
        let mut i: usize = 0;
        while i < v.len()
            invariant
                i <= v@.len(),
                forall|j: int| 0 <= j < i ==> v@[j] < 3,
            decreases v@.len() - i,
        {
            if v[i] >= 3 {
                return None;
            }
            i = i + 1;
        }
        Some(Trits(v))
    }

    /// Trit-for-trit equality.
    pub fn same(&self, other: &Trits) -> (r: bool)
        ensures
            r <==> self@ == other@,
    {
        if self.0.len() != other.0.len() {
            proof {
                assert(self@ !~= other@);
            }
            return false;
        }
        let mut i: usize = 0;
        while i < self.0.len()
            invariant
                i <= self@.len(),
                self@.len() == other@.len(),
                forall|j: int| 0 <= j < i ==> self@[j] == other@[j],
            decreases self@.len() - i,
        {
            if self.0[i] != other.0[i] {
                proof {
                    assert(self@ !~= other@);
                }
                return false;
            }
            i = i + 1;
        }
        proof {
            assert(self@ =~= other@);
        }
        true
    }

    /// An independent copy holding the same trits.
    pub fn duplicate(&self) -> (r: Trits)
        ensures
            r@ == self@,
    {
        let mut v: Vec<u8> = Vec::new();
        let mut i: usize = 0;
        while i < self.0.len()
            invariant
                i <= self@.len(),
                v@ == self@.take(i as int),
            decreases self@.len() - i,
        {
            v.push(self.0[i]);
            proof {
                assert(v@ =~= self@.take(i + 1));
            }
            i = i + 1;
        }
        proof {
            assert(v@ =~= self@);
        }
        Trits(v)
    }
}

/// Exec trit addition, tied to the spec-level [`tadd`].
pub fn add_t(a: u8, b: u8) -> (r: u8)
    requires
        a < 3,
        b < 3,
    ensures
        r == tadd(a, b),
        r < 3,
{
    if a + b < 3 {
        a + b
    } else {
        a + b - 3
    }
}

/// Exec trit subtraction, tied to the spec-level [`tsub`].
pub fn sub_t(a: u8, b: u8) -> (r: u8)
    requires
        a < 3,
        b < 3,
    ensures
        r == tsub(a, b),
        r < 3,
{
    if a >= b {
        a - b
    } else {
        a + 3 - b
    }
}

} // verus!
