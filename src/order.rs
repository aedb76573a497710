//! The order of sampling parameters, and the ordered insertion that keeps a spline sorted.
use crate::key::Key;
use core::cmp::Ordering;
use vstd::prelude::*;
use vstd::std_specs::cmp::PartialOrdSpec;

verus! {

/// `a <= b` in the order that `PartialOrd` gives `T`.
pub open spec fn le<T: PartialOrd>(a: T, b: T) -> bool {
    a.partial_cmp_spec(&b) matches Some(Ordering::Less | Ordering::Equal)
}

/// `a < b` in the order that `PartialOrd` gives `T`.
pub open spec fn lt<T: PartialOrd>(a: T, b: T) -> bool {
    a.partial_cmp_spec(&b) == Some(Ordering::Less)
}

/// The comparisons of `T` are specified, and `<=` is a total preorder: any two values compare,
/// and `<=` is transitive. Integers qualify; floating-point numbers do not (NaN compares with
/// nothing), and the contracts that rest on this say nothing of them.
pub open spec fn ordered<T: PartialOrd>() -> bool {
    &&& T::obeys_partial_cmp_spec()
    &&& forall|a: T, b: T| #![trigger le(a, b)] le(a, b) || le(b, a)
    &&& forall|a: T, b: T, c: T| #![trigger le(a, b), le(b, c)] le(a, b) && le(b, c) ==> le(a, c)
}

/// The keys are in ascending order of their sampling parameters.
pub open spec fn sorted<T: PartialOrd, V>(keys: Seq<Key<T, V>>) -> bool {
    forall|i: int, j: int|
        #![trigger keys[i], keys[j]]
        0 <= i < j < keys.len() ==> le(keys[i].t, keys[j].t)
}

/// Where a key with parameter `t` goes: right after the last key, counted from the end, whose
/// parameter is `<= t`. Keys with an equal parameter thus keep their order of arrival.
pub open spec fn insert_position<T: PartialOrd, V>(keys: Seq<Key<T, V>>, t: T) -> nat
    decreases keys.len(),
{
    if keys.len() == 0 {
        0
    } else if le(keys.last().t, t) {
        keys.len()
    } else {
        insert_position(keys.drop_last(), t)
    }
}

/// `keys` with `k` inserted at its position.
pub open spec fn insert_sorted<T: PartialOrd, V>(keys: Seq<Key<T, V>>, k: Key<T, V>) -> Seq<
    Key<T, V>,
> {
    keys.insert(insert_position(keys, k.t) as int, k)
}

/// The keys in ascending order of parameter, keys with equal parameters in their order of arrival:
/// each key in turn is inserted into the sorted keys before it.
pub open spec fn sort_keys<T: PartialOrd, V>(keys: Seq<Key<T, V>>) -> Seq<Key<T, V>>
    decreases keys.len(),
{
    if keys.len() == 0 {
        keys
    } else {
        insert_sorted(sort_keys(keys.drop_last()), keys.last())
    }
}

/// The insert position lies within the keys; every key from there on is not `<= t`, and the one
/// just before it is.
pub proof fn lemma_insert_position<T: PartialOrd, V>(keys: Seq<Key<T, V>>, t: T)
    ensures
        insert_position(keys, t) <= keys.len(),
        forall|j: int|
            insert_position(keys, t) <= j < keys.len() ==> !le(#[trigger] keys[j].t, t),
        insert_position(keys, t) > 0 ==> le(keys[insert_position(keys, t) - 1].t, t),
    decreases keys.len(),
{
    if keys.len() > 0 && !le(keys.last().t, t) {
        let rest = keys.drop_last();
        lemma_insert_position(rest, t);
        assert forall|j: int| insert_position(keys, t) <= j < keys.len() implies !le(
            #[trigger] keys[j].t,
            t,
        ) by {
            if j < rest.len() {
                assert(keys[j] == rest[j]);
            }
        }
        if insert_position(keys, t) > 0 {
            assert(keys[insert_position(keys, t) - 1] == rest[insert_position(keys, t) - 1]);
        }
    }
}

/// Inserting a key at its position keeps sorted keys sorted.
pub proof fn lemma_insert_sorted<T: PartialOrd, V>(keys: Seq<Key<T, V>>, k: Key<T, V>)
    requires
        ordered::<T>(),
        sorted(keys),
    ensures
        sorted(insert_sorted(keys, k)),
        insert_sorted(keys, k).len() == keys.len() + 1,
        insert_sorted(keys, k).to_multiset() == keys.to_multiset().insert(k),
{
    let p = insert_position(keys, k.t) as int;
    lemma_insert_position(keys, k.t);
    let s = insert_sorted(keys, k);
    assert forall|i: int, j: int| 0 <= i < j < s.len() implies le(
        #[trigger] s[i].t,
        #[trigger] s[j].t,
    ) by {
        if j < p {
            assert(le(keys[i].t, keys[j].t));
        } else if j == p {
            if i < p - 1 {
                assert(le(keys[i].t, keys[p - 1].t));
            }
        } else if i == p {
            assert(!le(keys[j - 1].t, k.t));
        } else if i < p {
            assert(le(keys[i].t, keys[j - 1].t));
        } else {
            assert(le(keys[i - 1].t, keys[j - 1].t));
        }
    }
    keys.to_multiset_ensures();
    vstd::seq_lib::to_multiset_insert(keys, p, k);
}

/// Sorting yields sorted keys, and the same keys.
pub proof fn lemma_sort_keys<T: PartialOrd, V>(keys: Seq<Key<T, V>>)
    requires
        ordered::<T>(),
    ensures
        sorted(sort_keys(keys)),
        sort_keys(keys).len() == keys.len(),
        sort_keys(keys).to_multiset() == keys.to_multiset(),
    decreases keys.len(),
{
    if keys.len() > 0 {
        let rest = keys.drop_last();
        lemma_sort_keys(rest);
        lemma_insert_sorted(sort_keys(rest), keys.last());
        assert(keys =~= rest.push(keys.last()));
        rest.to_multiset_ensures();
    } else {
        keys.to_multiset_ensures();
    }
}

/// Keys that are already sorted are left as they are, in the same order.
pub proof fn lemma_sort_keys_sorted<T: PartialOrd, V>(keys: Seq<Key<T, V>>)
    requires
        sorted(keys),
    ensures
        sort_keys(keys) == keys,
    decreases keys.len(),
{
    if keys.len() > 0 {
        let rest = keys.drop_last();
        assert(sorted(rest));
        lemma_sort_keys_sorted(rest);
        if rest.len() > 0 {
            assert(le(keys[rest.len() - 1].t, keys[keys.len() - 1].t));
            assert(rest.last() == keys[rest.len() - 1]);
        }
        assert(insert_position(rest, keys.last().t) == rest.len());
        assert(rest.insert(rest.len() as int, keys.last()) =~= keys);
    }
}

/// No two keys share a parameter: of two keys at distinct positions, at most one parameter is
/// `<=` the other.
pub open spec fn distinct_params<T: PartialOrd, V>(keys: Seq<Key<T, V>>) -> bool {
    forall|i: int, j: int|
        #![trigger keys[i], keys[j]]
        0 <= i < keys.len() && 0 <= j < keys.len() && i != j ==> !(le(keys[i].t, keys[j].t) && le(
            keys[j].t,
            keys[i].t,
        ))
}

/// Two sorted arrangements of the same keys, no two of which share a parameter, are one and the
/// same sequence.
pub proof fn lemma_sorted_unique<T: PartialOrd, V>(a: Seq<Key<T, V>>, b: Seq<Key<T, V>>)
    requires
        ordered::<T>(),
        sorted(a),
        sorted(b),
        distinct_params(a),
        a.to_multiset() == b.to_multiset(),
    ensures
        a == b,
    decreases a.len(),
{
    a.to_multiset_ensures();
    b.to_multiset_ensures();
    if a.len() == 0 {
        assert(a =~= b);
    } else {
        assert(b.to_multiset().count(a[0]) > 0);
        assert(b.contains(a[0]));
        let j = choose|j: int| 0 <= j < b.len() && b[j] == a[0];
        assert(a.to_multiset().count(b[0]) > 0);
        assert(a.contains(b[0]));
        let i = choose|i: int| 0 <= i < a.len() && a[i] == b[0];
        assert(le(a[i].t, a[i].t));
        if i != 0 {
            assert(le(a[0].t, a[i].t));
            assert(le(b[0].t, b[j].t));
            assert(false);
        }
        let ra = a.drop_first();
        let rb = b.drop_first();
        assert(a.remove(0) =~= ra);
        assert(b.remove(0) =~= rb);
        assert(ra.to_multiset() == rb.to_multiset());
        assert(sorted(ra));
        assert(sorted(rb));
        assert(distinct_params(ra));
        lemma_sorted_unique(ra, rb);
        assert(a[0] == b[0]);
        assert forall|x: int| 0 <= x < a.len() implies a[x] == b[x] by {
            if x > 0 {
                assert(a[x] == ra[x - 1]);
                assert(b[x] == rb[x - 1]);
            }
        }
        assert(a =~= b);
    }
}

} // verus!
