//! Name-keyed tables: association lists in which the first entry for a name
//! is the one that counts, and binding a name replaces that entry.
use vstd::prelude::*;

verus! {

/// The entry for `k`: that of the first pair whose name is `k`.
pub open spec fn lookup<X>(s: Seq<(Seq<char>, X)>, k: Seq<char>) -> Option<X>
    decreases s.len(),
{
    if s.len() == 0 {
        None
    } else if s[0].0 == k {
        Some(s[0].1)
    } else {
        lookup(s.drop_first(), k)
    }
}

/// The table with `k` bound to `x`: the first entry for `k` replaced, or a
/// new entry at the end.
pub open spec fn bind<X>(s: Seq<(Seq<char>, X)>, k: Seq<char>, x: X) -> Seq<(Seq<char>, X)>
    decreases s.len(),
{
    if s.len() == 0 {
        seq![(k, x)]
    } else if s[0].0 == k {
        s.update(0, (k, x))
    } else {
        seq![s[0]] + bind(s.drop_first(), k, x)
    }
}

/// After binding, a name reads back what was bound to it, and every other
/// name reads what it read before.
pub proof fn lemma_lookup_bind<X>(s: Seq<(Seq<char>, X)>, k: Seq<char>, x: X, j: Seq<char>)
    ensures
        lookup(bind(s, k, x), j) == if j == k {
            Some(x)
        } else {
            lookup(s, j)
        },
    decreases s.len(),
{
    if s.len() > 0 && s[0].0 != k {
        lemma_lookup_bind(s.drop_first(), k, x, j);
        assert((seq![s[0]] + bind(s.drop_first(), k, x))[0] == s[0]);
        assert((seq![s[0]] + bind(s.drop_first(), k, x)).drop_first() =~= bind(
            s.drop_first(),
            k,
            x,
        ));
        assert(bind(s, k, x) == seq![s[0]] + bind(s.drop_first(), k, x));
        assert(lookup(bind(s, k, x), j) == (if s[0].0 == j {
            Some(s[0].1)
        } else {
            lookup(bind(s.drop_first(), k, x), j)
        }));
    } else if s.len() > 0 {
        assert(s.update(0, (k, x)).drop_first() =~= s.drop_first());
        assert(s.update(0, (k, x))[0] == (k, x));
        assert(bind(s, k, x) == s.update(0, (k, x)));
    } else {
        assert(seq![(k, x)].drop_first() =~= Seq::<(Seq<char>, X)>::empty());
        assert(seq![(k, x)][0] == (k, x));
        assert(lookup(Seq::<(Seq<char>, X)>::empty(), j) is None);
    }
}

/// The index of the first entry whose name is `k`, if any.
pub open spec fn index_of<X>(s: Seq<(Seq<char>, X)>, k: Seq<char>, i: int) -> bool {
    &&& 0 <= i < s.len()
    &&& s[i].0 == k
    &&& forall|j: int| 0 <= j < i ==> s[j].0 != k
}

pub proof fn lemma_lookup_index<X>(s: Seq<(Seq<char>, X)>, k: Seq<char>, i: int)
    requires
        index_of(s, k, i),
    ensures
        lookup(s, k) == Some(s[i].1),
        bind(s, k, s[i].1) == s.update(i, (k, s[i].1)),
    decreases i,
{
    if i > 0 {
        assert(index_of(s.drop_first(), k, i - 1));
        lemma_lookup_index(s.drop_first(), k, i - 1);
    }
    lemma_bind_at(s, k, s[i].1, i);
}

pub proof fn lemma_bind_at<X>(s: Seq<(Seq<char>, X)>, k: Seq<char>, x: X, i: int)
    requires
        index_of(s, k, i),
    ensures
        bind(s, k, x) == s.update(i, (k, x)),
    decreases i,
{
    if i > 0 {
        assert(index_of(s.drop_first(), k, i - 1));
        lemma_bind_at(s.drop_first(), k, x, i - 1);
        assert(seq![s[0]] + s.drop_first().update(i - 1, (k, x)) =~= s.update(i, (k, x)));
    }
}

pub proof fn lemma_lookup_absent<X>(s: Seq<(Seq<char>, X)>, k: Seq<char>, x: X)
    requires
        forall|j: int| 0 <= j < s.len() ==> s[j].0 != k,
    ensures
        lookup(s, k) is None,
        bind(s, k, x) == s.push((k, x)),
    decreases s.len(),
{
    if s.len() > 0 {
        lemma_lookup_absent(s.drop_first(), k, x);
        assert(seq![s[0]] + s.drop_first().push((k, x)) =~= s.push((k, x)));
    } else {
        assert(seq![(k, x)] =~= s.push((k, x)));
    }
}

/// An entry that `lookup` finds is the first entry of its name.
pub proof fn lemma_lookup_some<X>(s: Seq<(Seq<char>, X)>, k: Seq<char>) -> (i: int)
    requires
        lookup(s, k) is Some,
    ensures
        index_of(s, k, i),
        lookup(s, k) == Some(s[i].1),
    decreases s.len(),
{
    if s[0].0 == k {
        0
    } else {
        let i = lemma_lookup_some(s.drop_first(), k);
        assert forall|m: int| 0 <= m < i + 1 implies s[m].0 != k by {
            if m > 0 {
                assert(s[m] == s.drop_first()[m - 1]);
            }
        }
        i + 1
    }
}

/// Finds the first entry named `k`.
pub fn find<X>(s: &Vec<(String, X)>, k: &String) -> (r: Option<usize>)
    ensures
        match r {
            Some(i) => i < s@.len() && s@[i as int].0@ == k@ && forall|j: int|
                0 <= j < i ==> s@[j].0@ != k@,
            None => forall|j: int| 0 <= j < s@.len() ==> s@[j].0@ != k@,
        },
{
    let mut i: usize = 0;
    while i < s.len()
        invariant
            i <= s@.len(),
            forall|j: int| 0 <= j < i ==> s@[j].0@ != k@,
        decreases s@.len() - i,
    {
        if s[i].0 == *k {
            return Some(i);
        }
        i = i + 1;
    }
    None
}

} // verus!
