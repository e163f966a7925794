//! The ID-keyed mapping the cache is made of: an association vector with
//! unique keys, viewed as a `Map<int, _>` of the values' views.  Insertion
//! order is kept, which makes listing and persisting deterministic.

use vstd::prelude::*;

verus! {

/// No two entries share a key.
pub open spec fn unique_keys<V>(s: Seq<(i64, V)>) -> bool {
    forall|i: int, j: int| 0 <= i < j < s.len() ==> (#[trigger] s[i]).0 != (#[trigger] s[j]).0
}

/// Some entry carries the key `k`.
pub open spec fn seq_has_key<V>(s: Seq<(i64, V)>, k: int) -> bool {
    exists|i: int| 0 <= i < s.len() && (#[trigger] s[i]).0 as int == k
}

/// The map the entries denote, later entries winning.
pub open spec fn kv_fold<V: View>(acc: Map<int, V::V>, s: Seq<(i64, V)>) -> Map<int, V::V>
    decreases s.len(),
{
    if s.len() == 0 {
        acc
    } else {
        kv_fold(acc.insert(s[0].0 as int, s[0].1@), s.drop_first())
    }
}

proof fn lemma_tail_has_key<V>(s: Seq<(i64, V)>, k: int)
    requires
        s.len() > 0,
        !seq_has_key(s, k),
    ensures
        !seq_has_key(s.drop_first(), k),
        s[0].0 as int != k,
{
    assert(s[0].0 as int != k);
    if seq_has_key(s.drop_first(), k) {
        let i = choose|i: int| 0 <= i < s.drop_first().len() && (#[trigger] s.drop_first()[i]).0
            as int == k;
        assert(s[i + 1].0 as int == k);
    }
}

pub proof fn lemma_kv_fold_absent<V: View>(acc: Map<int, V::V>, s: Seq<(i64, V)>, k: int)
    requires
        !seq_has_key(s, k),
    ensures
        kv_fold(acc, s).contains_key(k) == acc.contains_key(k),
        acc.contains_key(k) ==> kv_fold(acc, s)[k] == acc[k],
    decreases s.len(),
{
    if s.len() > 0 {
        lemma_tail_has_key(s, k);
        lemma_kv_fold_absent(acc.insert(s[0].0 as int, s[0].1@), s.drop_first(), k);
    }
}

pub proof fn lemma_kv_fold_contains<V: View>(acc: Map<int, V::V>, s: Seq<(i64, V)>, k: int)
    ensures
        kv_fold(acc, s).contains_key(k) <==> (acc.contains_key(k) || seq_has_key(s, k)),
    decreases s.len(),
{
    if s.len() > 0 {
        lemma_kv_fold_contains(acc.insert(s[0].0 as int, s[0].1@), s.drop_first(), k);
        if seq_has_key(s, k) && s[0].0 as int != k {
            let i = choose|i: int| 0 <= i < s.len() && (#[trigger] s[i]).0 as int == k;
            assert(s.drop_first()[i - 1].0 as int == k);
        }
        if seq_has_key(s.drop_first(), k) {
            let i = choose|i: int| 0 <= i < s.drop_first().len() && (#[trigger] s.drop_first()[i]).0
                as int == k;
            assert(s[i + 1].0 as int == k);
        }
    }
}

pub proof fn lemma_kv_fold_len<V: View>(acc: Map<int, V::V>, s: Seq<(i64, V)>)
    requires
        acc.dom().finite(),
        unique_keys(s),
        forall|i: int| 0 <= i < s.len() ==> !acc.contains_key((#[trigger] s[i]).0 as int),
    ensures
        kv_fold(acc, s).dom().finite(),
        kv_fold(acc, s).len() == acc.len() + s.len(),
    decreases s.len(),
{
    if s.len() > 0 {
        let acc2 = acc.insert(s[0].0 as int, s[0].1@);
        assert(forall|i: int|
            0 <= i < s.drop_first().len() ==> (#[trigger] s.drop_first()[i]) == s[i + 1]);
        lemma_kv_fold_len(acc2, s.drop_first());
    }
}

pub proof fn lemma_kv_fold_get<V: View>(acc: Map<int, V::V>, s: Seq<(i64, V)>, i: int)
    requires
        unique_keys(s),
        0 <= i < s.len(),
    ensures
        kv_fold(acc, s).contains_key(s[i].0 as int),
        kv_fold(acc, s)[s[i].0 as int] == s[i].1@,
    decreases s.len(),
{
    let acc2 = acc.insert(s[0].0 as int, s[0].1@);
    if i == 0 {
        assert(!seq_has_key(s.drop_first(), s[0].0 as int)) by {
            if seq_has_key(s.drop_first(), s[0].0 as int) {
                let j = choose|j: int|
                    0 <= j < s.drop_first().len() && (#[trigger] s.drop_first()[j]).0 as int == s[0].0
                        as int;
                assert(s[j + 1].0 == s[0].0);
            }
        }
        lemma_kv_fold_absent(acc2, s.drop_first(), s[0].0 as int);
    } else {
        assert(forall|a: int|
            0 <= a < s.drop_first().len() ==> (#[trigger] s.drop_first()[a]) == s[a + 1]);
        lemma_kv_fold_get(acc2, s.drop_first(), i - 1);
    }
}

pub proof fn lemma_kv_fold_insert_commute<V: View>(
    acc: Map<int, V::V>,
    s: Seq<(i64, V)>,
    k: int,
    x: V::V,
)
    requires
        !seq_has_key(s, k),
    ensures
        kv_fold(acc.insert(k, x), s) == kv_fold(acc, s).insert(k, x),
    decreases s.len(),
{
    if s.len() > 0 {
        lemma_tail_has_key(s, k);
        let k0 = s[0].0 as int;
        let v0 = s[0].1@;
        assert(acc.insert(k, x).insert(k0, v0) =~= acc.insert(k0, v0).insert(k, x));
        lemma_kv_fold_insert_commute(acc.insert(k0, v0), s.drop_first(), k, x);
    }
}

pub proof fn lemma_kv_fold_push<V: View>(acc: Map<int, V::V>, s: Seq<(i64, V)>, p: (i64, V))
    ensures
        kv_fold(acc, s.push(p)) == kv_fold(acc, s).insert(p.0 as int, p.1@),
    decreases s.len(),
{
    if s.len() == 0 {
        assert(s.push(p).drop_first() =~= Seq::<(i64, V)>::empty());
        assert(s.push(p)[0] == p);
        assert(kv_fold(acc, s.push(p)) == kv_fold(
            acc.insert(p.0 as int, p.1@),
            s.push(p).drop_first(),
        ));
        assert(kv_fold(acc.insert(p.0 as int, p.1@), s.push(p).drop_first()) == acc.insert(
            p.0 as int,
            p.1@,
        ));
        assert(kv_fold(acc, s) == acc);
    } else {
        assert(s.push(p)[0] == s[0]);
        assert(s.push(p).drop_first() =~= s.drop_first().push(p));
        lemma_kv_fold_push(acc.insert(s[0].0 as int, s[0].1@), s.drop_first(), p);
    }
}

pub proof fn lemma_kv_fold_update<V: View>(
    acc: Map<int, V::V>,
    s: Seq<(i64, V)>,
    i: int,
    p: (i64, V),
)
    requires
        unique_keys(s),
        0 <= i < s.len(),
        s[i].0 == p.0,
    ensures
        kv_fold(acc, s.update(i, p)) == kv_fold(acc, s).insert(p.0 as int, p.1@),
    decreases s.len(),
{
    let k = p.0 as int;
    if i == 0 {
        assert(!seq_has_key(s.drop_first(), k)) by {
            if seq_has_key(s.drop_first(), k) {
                let j = choose|j: int|
                    0 <= j < s.drop_first().len() && (#[trigger] s.drop_first()[j]).0 as int == k;
                assert(s[j + 1].0 == s[0].0);
            }
        }
        assert(s.update(0, p).drop_first() =~= s.drop_first());
        assert(s.update(0, p)[0] == p);
        lemma_kv_fold_insert_commute(acc, s.drop_first(), k, p.1@);
        lemma_kv_fold_insert_commute(acc, s.drop_first(), k, s[0].1@);
        assert(kv_fold(acc, s.drop_first()).insert(k, s[0].1@).insert(k, p.1@) =~= kv_fold(
            acc,
            s.drop_first(),
        ).insert(k, p.1@));
    } else {
        assert(s.update(i, p)[0] == s[0]);
        assert(s.update(i, p).drop_first() =~= s.drop_first().update(i - 1, p));
        assert(forall|a: int|
            0 <= a < s.drop_first().len() ==> (#[trigger] s.drop_first()[a]) == s[a + 1]);
        lemma_kv_fold_update(acc.insert(s[0].0 as int, s[0].1@), s.drop_first(), i - 1, p);
    }
}

/// Everything a caller walking the entries needs: each entry is in the map
/// with its own value, every key of the map comes from some entry, and the
/// sizes agree.
pub proof fn lemma_entries_view<V: View>(s: Seq<(i64, V)>)
    requires
        unique_keys(s),
    ensures
        kv_fold(Map::<int, V::V>::empty(), s).dom().finite(),
        kv_fold(Map::<int, V::V>::empty(), s).len() == s.len(),
        forall|i: int|
            0 <= i < s.len() ==> kv_fold(Map::<int, V::V>::empty(), s).contains_key(
                (#[trigger] s[i]).0 as int,
            ) && kv_fold(Map::<int, V::V>::empty(), s)[s[i].0 as int] == s[i].1@,
        forall|k: int| kv_fold(Map::<int, V::V>::empty(), s).contains_key(k) ==> seq_has_key(s, k),
{
    let m = kv_fold(Map::<int, V::V>::empty(), s);
    lemma_kv_fold_len(Map::<int, V::V>::empty(), s);
    assert forall|i: int|
        0 <= i < s.len() implies m.contains_key((#[trigger] s[i]).0 as int) && m[s[i].0 as int]
        == s[i].1@ by {
        lemma_kv_fold_get(Map::<int, V::V>::empty(), s, i);
    }
    assert forall|k: int| m.contains_key(k) implies seq_has_key(s, k) by {
        lemma_kv_fold_contains(Map::<int, V::V>::empty(), s, k);
    }
}

/// An ID-keyed mapping with insertion-order iteration.
pub struct KvMap<V> {
    entries: Vec<(i64, V)>,
}

impl<V: View> View for KvMap<V> {
    type V = Map<int, V::V>;

    closed spec fn view(&self) -> Map<int, V::V> {
        kv_fold(Map::<int, V::V>::empty(), self.entries@)
    }
}

impl<V> KvMap<V> {
    #[verifier::type_invariant]
    spec fn wf(self) -> bool {
        unique_keys(self.entries@)
    }
}

impl<V: View> KvMap<V> {
    pub fn new() -> (r: Self)
        ensures
            r@ == Map::<int, V::V>::empty(),
    {
        KvMap { entries: Vec::new() }
    }

    /// The number of keys held.
    pub fn len(&self) -> (r: usize)
        ensures
            r == self@.len(),
            self@.dom().finite(),
    {
        proof {
            use_type_invariant(self);
            lemma_entries_view::<V>(self.entries@);
        }
        self.entries.len()
    }

    fn position(&self, k: i64) -> (r: Option<usize>)
        ensures
            match r {
                Some(i) => i < self.entries@.len() && self.entries@[i as int].0 == k,
                None => !seq_has_key(self.entries@, k as int),
            },
    {
        let mut i: usize = 0;
        let n = self.entries.len();
        while i < n
            invariant
                i <= n,
                n == self.entries@.len(),
                forall|j: int| 0 <= j < i ==> (#[trigger] self.entries@[j]).0 != k,
            decreases n - i,
        {
            if self.entries[i].0 == k {
                return Some(i);
            }
            i += 1;
        }
        None
    }

    pub fn contains_key(&self, k: i64) -> (r: bool)
        ensures
            r == self@.contains_key(k as int),
    {
        proof {
            use_type_invariant(self);
            lemma_kv_fold_contains(Map::<int, V::V>::empty(), self.entries@, k as int);
        }
        match self.position(k) {
            Some(_) => true,
            None => false,
        }
    }

    pub fn get(&self, k: i64) -> (r: Option<&V>)
        ensures
            match r {
                Some(v) => self@.contains_key(k as int) && v@ == self@[k as int],
                None => !self@.contains_key(k as int),
            },
    {
        proof {
            use_type_invariant(self);
            lemma_kv_fold_contains(Map::<int, V::V>::empty(), self.entries@, k as int);
        }
        match self.position(k) {
            Some(i) => {
                proof {
                    lemma_kv_fold_get(Map::<int, V::V>::empty(), self.entries@, i as int);
                }
                Some(&self.entries[i].1)
            },
            None => None,
        }
    }

    /// Adds or replaces the value under `k`.
    pub fn insert(&mut self, k: i64, v: V)
        ensures
            final(self)@ == old(self)@.insert(k as int, v@),
    {
        proof {
            use_type_invariant(&*self);
        }
        let ghost s0 = self.entries@;
        let pos = self.position(k);
        let mut entries: Vec<(i64, V)> = Vec::new();
        core::mem::swap(&mut entries, &mut self.entries);
        match pos {
            Some(i) => {
                entries[i] = (k, v);
                proof {
                    lemma_kv_fold_update(Map::<int, V::V>::empty(), s0, i as int, (k, v));
                    assert(unique_keys(entries@)) by {
                        assert(forall|a: int|
                            0 <= a < s0.len() && a != i ==> (#[trigger] entries@[a]) == s0[a]);
                        assert(entries@[i as int].0 == s0[i as int].0);
                    }
                }
            },
            None => {
                entries.push((k, v));
                proof {
                    lemma_kv_fold_push(Map::<int, V::V>::empty(), s0, (k, v));
                    assert(unique_keys(entries@)) by {
                        assert(forall|a: int| 0 <= a < s0.len() ==> (#[trigger] entries@[a]) == s0[a]);
                    }
                }
            },
        }
        self.entries = entries;
    }

    /// The entries in insertion order, for listing and persisting.
    pub fn entries(&self) -> (r: &Vec<(i64, V)>)
        ensures
            unique_keys(r@),
            kv_fold(Map::<int, V::V>::empty(), r@) == self@,
    {
        proof {
            use_type_invariant(self);
        }
        &self.entries
    }
}

} // verus!
