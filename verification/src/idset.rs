//! The working set of taxon IDs for one build: a duplicate-free vector of
//! IDs viewed as a `Set<int>`, mutated in place as deprecations resolve.

use vstd::prelude::*;

verus! {

pub open spec fn unique_elems(s: Seq<i64>) -> bool {
    forall|i: int, j: int| 0 <= i < j < s.len() ==> s[i] != s[j]
}

pub open spec fn seq_has_elem(s: Seq<i64>, x: int) -> bool {
    exists|i: int| 0 <= i < s.len() && (#[trigger] s[i]) as int == x
}

pub open spec fn id_fold(acc: Set<int>, s: Seq<i64>) -> Set<int>
    decreases s.len(),
{
    if s.len() == 0 {
        acc
    } else {
        id_fold(acc.insert(s[0] as int), s.drop_first())
    }
}

pub proof fn lemma_id_fold_contains(acc: Set<int>, s: Seq<i64>, x: int)
    ensures
        id_fold(acc, s).contains(x) <==> (acc.contains(x) || seq_has_elem(s, x)),
    decreases s.len(),
{
    if s.len() > 0 {
        lemma_id_fold_contains(acc.insert(s[0] as int), s.drop_first(), x);
        if seq_has_elem(s, x) && s[0] as int != x {
            let i = choose|i: int| 0 <= i < s.len() && (#[trigger] s[i]) as int == x;
            assert(s.drop_first()[i - 1] as int == x);
        }
        if seq_has_elem(s.drop_first(), x) {
            let i = choose|i: int|
                0 <= i < s.drop_first().len() && (#[trigger] s.drop_first()[i]) as int == x;
            assert(s[i + 1] as int == x);
        }
    }
}

pub proof fn lemma_id_fold_len(acc: Set<int>, s: Seq<i64>)
    requires
        acc.finite(),
        unique_elems(s),
        forall|i: int| 0 <= i < s.len() ==> !acc.contains((#[trigger] s[i]) as int),
    ensures
        id_fold(acc, s).finite(),
        id_fold(acc, s).len() == acc.len() + s.len(),
    decreases s.len(),
{
    if s.len() > 0 {
        assert(forall|i: int|
            0 <= i < s.drop_first().len() ==> (#[trigger] s.drop_first()[i]) == s[i + 1]);
        lemma_id_fold_len(acc.insert(s[0] as int), s.drop_first());
    }
}

pub proof fn lemma_id_fold_push(acc: Set<int>, s: Seq<i64>, x: i64)
    ensures
        id_fold(acc, s.push(x)) == id_fold(acc, s).insert(x as int),
    decreases s.len(),
{
    if s.len() == 0 {
        assert(s.push(x).drop_first() =~= Seq::<i64>::empty());
        assert(s.push(x)[0] == x);
        assert(id_fold(acc, s.push(x)) == id_fold(
            acc.insert(x as int),
            s.push(x).drop_first(),
        ));
        assert(id_fold(acc.insert(x as int), s.push(x).drop_first()) == acc.insert(x as int));
        assert(id_fold(acc, s) == acc);
    } else {
        assert(s.push(x)[0] == s[0]);
        assert(s.push(x).drop_first() =~= s.drop_first().push(x));
        lemma_id_fold_push(acc.insert(s[0] as int), s.drop_first(), x);
    }
}

/// A duplicate-free set of taxon IDs.
pub struct IdSet {
    elems: Vec<i64>,
}

impl View for IdSet {
    type V = Set<int>;

    closed spec fn view(&self) -> Set<int> {
        id_fold(Set::empty(), self.elems@)
    }
}

impl IdSet {
    #[verifier::type_invariant]
    spec fn wf(self) -> bool {
        unique_elems(self.elems@)
    }

    pub fn new() -> (r: Self)
        ensures
            r@ == Set::<int>::empty(),
    {
        IdSet { elems: Vec::new() }
    }

    pub fn len(&self) -> (r: usize)
        ensures
            r == self@.len(),
            self@.finite(),
    {
        proof {
            use_type_invariant(self);
            lemma_id_fold_len(Set::empty(), self.elems@);
        }
        self.elems.len()
    }

    fn position(&self, x: i64) -> (r: Option<usize>)
        ensures
            match r {
                Some(i) => i < self.elems@.len() && self.elems@[i as int] == x,
                None => !seq_has_elem(self.elems@, x as int),
            },
    {
        let mut i: usize = 0;
        let n = self.elems.len();
        while i < n
            invariant
                i <= n,
                n == self.elems@.len(),
                forall|j: int| 0 <= j < i ==> (#[trigger] self.elems@[j]) != x,
            decreases n - i,
        {
            if self.elems[i] == x {
                return Some(i);
            }
            i += 1;
        }
        None
    }

    pub fn contains(&self, x: i64) -> (r: bool)
        ensures
            r == self@.contains(x as int),
    {
        proof {
            use_type_invariant(self);
            lemma_id_fold_contains(Set::empty(), self.elems@, x as int);
        }
        match self.position(x) {
            Some(_) => true,
            None => false,
        }
    }

    pub fn insert(&mut self, x: i64)
        ensures
            final(self)@ == old(self)@.insert(x as int),
    {
        proof {
            use_type_invariant(&*self);
            lemma_id_fold_contains(Set::empty(), self.elems@, x as int);
        }
        let ghost s0 = self.elems@;
        let pos = self.position(x);
        match pos {
            Some(_) => {
                proof {
                    assert(self@ =~= old(self)@.insert(x as int));
                }
            },
            None => {
                let mut elems: Vec<i64> = Vec::new();
                core::mem::swap(&mut elems, &mut self.elems);
                elems.push(x);
                proof {
                    lemma_id_fold_push(Set::empty(), s0, x);
                    assert(unique_elems(elems@)) by {
                        assert(forall|a: int| 0 <= a < s0.len() ==> (#[trigger] elems@[a]) == s0[a]);
                    }
                }
                self.elems = elems;
            },
        }
    }

    /// Removes `x` if present.
    pub fn remove(&mut self, x: i64)
        ensures
            final(self)@ == old(self)@.remove(x as int),
    {
        proof {
            use_type_invariant(&*self);
            lemma_id_fold_contains(Set::empty(), self.elems@, x as int);
        }
        let ghost s0 = self.elems@;
        let pos = self.position(x);
        match pos {
            Some(i) => {
                let mut elems: Vec<i64> = Vec::new();
                core::mem::swap(&mut elems, &mut self.elems);
                elems.remove(i);
                proof {
                    let t = elems@;
                    assert(t =~= s0.remove(i as int));
                    assert(unique_elems(t)) by {
                        assert(forall|a: int| 0 <= a < i ==> (#[trigger] t[a]) == s0[a]);
                        assert(forall|a: int|
                            i <= a < t.len() ==> (#[trigger] t[a]) == s0[a + 1]);
                    }
                    assert forall|y: int| id_fold(Set::empty(), t).contains(y) implies old(
                        self,
                    )@.remove(x as int).contains(y) by {
                        lemma_id_fold_contains(Set::empty(), t, y);
                        lemma_id_fold_contains(Set::empty(), s0, y);
                        if seq_has_elem(t, y) {
                            let a = choose|a: int|
                                0 <= a < t.len() && (#[trigger] t[a]) as int == y;
                            if a < i {
                                assert(s0[a] as int == y);
                            } else {
                                assert(s0[a + 1] as int == y);
                            }
                            // uniqueness of s0 rules the removed element out
                            assert(y != x as int);
                        }
                    }
                    assert forall|y: int|
                        old(self)@.remove(x as int).contains(y) implies id_fold(
                        Set::empty(),
                        t,
                    ).contains(y) by {
                        lemma_id_fold_contains(Set::empty(), t, y);
                        lemma_id_fold_contains(Set::empty(), s0, y);
                        if seq_has_elem(s0, y) {
                            let a = choose|a: int|
                                0 <= a < s0.len() && (#[trigger] s0[a]) as int == y;
                            if a < i {
                                assert(t[a] as int == y);
                            } else if a > i {
                                assert(t[a - 1] as int == y);
                            }
                        }
                    }
                    assert(id_fold(Set::empty(), t) =~= old(self)@.remove(x as int));
                }
                self.elems = elems;
            },
            None => {
                proof {
                    assert(self@ =~= old(self)@.remove(x as int));
                }
            },
        }
    }
}

} // verus!
