//! Splines: sorted control points, and sampling between them.
use crate::interpolate::{Interpolate, Interpolator};
use crate::interpolation::Interpolation;
use crate::key::Key;
use crate::order::{
    insert_position, insert_sorted, le, lemma_insert_sorted, lt, ordered, sort_keys, sorted,
};
use vstd::multiset::Multiset;
use vstd::prelude::*;
use vstd::std_specs::cmp::PartialOrdSpec;
use vstd::std_specs::iter::IteratorSpec;

verus! {

/// A spline: control points kept in ascending order of their sampling parameters.
///
/// Build one with `Spline::from_vec` (the keys need not be sorted), and sample it with
/// `Spline::sample` or `Spline::clamped_sample`. Sampling at `t` blends over the half-open
/// segment `[keys[i].t, keys[i + 1].t)` that holds `t`, with the mode of `keys[i]`.
///
/// The contracts on order and sampling are exact whenever the parameter type is ordered (see
/// `order::ordered`). Keys may share a parameter; no segment of zero width is then ever sampled
/// (see `laws::law_segments_not_degenerate`).
#[derive(Debug, Clone)]
pub struct Spline<T, V>(pub(crate) Vec<Key<T, V>>);

impl<T, V> Default for Spline<T, V> {
    /// A spline without keys.
    fn default() -> (r: Self)
        ensures
            r@.len() == 0,
    {
        Spline(Vec::new())
    }
}

/// A sampled value with the index of the key that starts its segment.
#[derive(Clone, Debug, PartialEq, Eq, Hash)]
pub struct SampledWithKey<V> {
    /// Sampled value.
    pub value: V,
    /// Index of the lower key of the segment.
    pub key: usize,
}

/// A key open for editing in place: its value and its mode can change, its parameter cannot (that
/// could break the order of the keys; see `Spline::replace`).
#[derive(Debug)]
pub struct KeyMut<'a, T, V> {
    /// Carried value.
    pub value: &'a mut V,
    /// Mode of the segment that starts at the key.
    pub interpolation: &'a mut Interpolation<T, V>,
}

/// `t` lies in the segment that starts at key `i`: `keys[i].t <= t < keys[i + 1].t`.
pub open spec fn in_segment<T: PartialOrd, V>(keys: Seq<Key<T, V>>, i: int, t: T) -> bool {
    &&& 0 <= i
    &&& i + 1 < keys.len()
    &&& le(keys[i].t, t)
    &&& !le(keys[i + 1].t, t)
}

/// The mode of key `i` finds the keys it needs: Catmull-Rom needs one key before the segment
/// and one after it.
pub open spec fn has_neighbours<T, V>(keys: Seq<Key<T, V>>, i: int) -> bool {
    keys[i].interpolation is CatmullRom ==> 1 <= i && i + 2 < keys.len()
}

/// The Bézier blend at the normalized position `nt` of the segment from value `a`, with outgoing
/// tangent point `u`, to key `b`: cubic when `b` is Bézier as well (its tangent mirrored, or its
/// explicit incoming tangent), quadratic otherwise.
pub open spec fn bezier_blend<T, V: Interpolate<T>>(nt: T, a: V, u: V, b: Key<T, V>) -> V {
    match b.interpolation {
        Interpolation::Bezier(w) => V::cubic_bezier_mirrored_spec(nt, a, u, w, b.value),
        Interpolation::StrokeBezier(w, _) => V::cubic_bezier_spec(nt, a, u, w, b.value),
        _ => V::quadratic_bezier_spec(nt, a, u, b.value),
    }
}

/// What the mode of key `i` gives at the normalized position `nt` of its segment.
pub open spec fn blend<T: Interpolator, V: Interpolate<T>>(
    keys: Seq<Key<T, V>>,
    i: int,
    nt: T,
) -> V {
    let a = keys[i];
    let b = keys[i + 1];
    match a.interpolation {
        Interpolation::Step(threshold) => if lt(nt, threshold) {
            a.value
        } else {
            b.value
        },
        Interpolation::Linear => V::lerp_spec(nt, a.value, b.value),
        Interpolation::Cosine => V::cosine_spec(nt, a.value, b.value),
        Interpolation::CatmullRom => {
            let x = keys[i - 1];
            let y = keys[i + 2];
            V::cubic_hermite_spec(nt, (x.t, x.value), (a.t, a.value), (b.t, b.value), (y.t, y.value))
        },
        Interpolation::Bezier(u) => bezier_blend(nt, a.value, u, b),
        Interpolation::StrokeBezier(u, _) => bezier_blend(nt, a.value, u, b),
    }
}

/// What the segment that starts at key `i` gives at `t`: the blend of its mode at the
/// normalized position of `t` between its two keys.
pub open spec fn segment_value<T: Interpolator, V: Interpolate<T>>(
    keys: Seq<Key<T, V>>,
    i: int,
    t: T,
) -> V {
    blend(keys, i, t.normalize_spec(keys[i].t, keys[i + 1].t))
}

/// The segment that holds `t`, if any (there is at most one: `lemma_segment_unique`).
pub open spec fn segment_of<T: PartialOrd, V>(keys: Seq<Key<T, V>>, t: T) -> Option<int> {
    if exists|i: int| #[trigger] in_segment(keys, i, t) {
        Some(choose|i: int| #[trigger] in_segment(keys, i, t))
    } else {
        None
    }
}

/// Sampling at `t`: the value of the segment that holds `t`, with the index of its lower key;
/// nothing when no segment holds `t` or when its mode lacks the keys it needs.
pub open spec fn sampled<T: Interpolator, V: Interpolate<T>>(keys: Seq<Key<T, V>>, t: T) -> Option<
    SampledWithKey<V>,
> {
    match segment_of(keys, t) {
        Some(i) => if has_neighbours(keys, i) {
            Some(SampledWithKey { value: segment_value(keys, i, t), key: i as usize })
        } else {
            None
        },
        None => None,
    }
}

/// Clamped sampling at `t`: the sample if there is one; else the first key if `t` is at or
/// before it; else the last key if `t` is at or after it; else nothing. Nothing without keys.
pub open spec fn clamped<T: Interpolator, V: Interpolate<T>>(keys: Seq<Key<T, V>>, t: T) -> Option<
    SampledWithKey<V>,
> {
    if keys.len() == 0 {
        None
    } else if sampled(keys, t) is Some {
        sampled(keys, t)
    } else if le(t, keys[0].t) {
        Some(SampledWithKey { value: keys[0].value, key: 0 })
    } else if le(keys.last().t, t) {
        Some(SampledWithKey { value: keys.last().value, key: (keys.len() - 1) as usize })
    } else {
        None
    }
}

/// The value alone of a sample.
pub open spec fn value_of<V>(s: Option<SampledWithKey<V>>) -> Option<V> {
    match s {
        Some(s) => Some(s.value),
        None => None,
    }
}

/// At most one segment holds a given parameter.
pub proof fn lemma_segment_unique<T: PartialOrd, V>(keys: Seq<Key<T, V>>, t: T, i: int, j: int)
    requires
        ordered::<T>(),
        sorted(keys),
        in_segment(keys, i, t),
        in_segment(keys, j, t),
    ensures
        i == j,
{
    if i < j {
        assert(le(keys[i + 1].t, keys[j].t));
    } else if j < i {
        assert(le(keys[j + 1].t, keys[i].t));
    }
}

/// The segment that holds `t` is the one `segment_of` names.
pub proof fn lemma_segment_of<T: PartialOrd, V>(keys: Seq<Key<T, V>>, t: T, i: int)
    requires
        ordered::<T>(),
        sorted(keys),
        in_segment(keys, i, t),
    ensures
        segment_of(keys, t) == Some(i),
{
    let j = choose|j: int| #[trigger] in_segment(keys, j, t);
    lemma_segment_unique(keys, t, i, j);
}

/// Finds the segment that holds `t`, by binary search over the sorted keys.
fn search_lower_cp<T: PartialOrd, V>(cps: &[Key<T, V>], t: &T) -> (r: Option<usize>)
    ensures
        r matches Some(i) ==> i + 1 < cps@.len(),
        ordered::<T>() && sorted(cps@) ==> match r {
            Some(i) => in_segment(cps@, i as int, *t),
            None => forall|i: int| !in_segment(cps@, i, *t),
        },
{
    let len = cps.len();
    if len < 2 {
        return None;
    }
    // Keys before `lo` are <= t; keys from `hi` on are not.
    let mut lo: usize = 0;
    let mut hi: usize = len;
    while lo < hi
        invariant
            len == cps@.len(),
            lo <= hi <= len,
            ordered::<T>() && sorted(cps@) ==> forall|j: int|
                0 <= j < lo ==> le(#[trigger] cps@[j].t, *t),
            ordered::<T>() && sorted(cps@) ==> forall|j: int|
                hi <= j < len ==> !le(#[trigger] cps@[j].t, *t),
        decreases hi - lo,
    {
        let mid = lo + (hi - lo) / 2;
        if cps[mid].t <= *t {
            proof {
                if ordered::<T>() && sorted(cps@) {
                    assert(le(cps@[mid as int].t, *t));
                    assert forall|j: int| 0 <= j <= mid implies le(#[trigger] cps@[j].t, *t) by {
                        if j < mid {
                            assert(le(cps@[j].t, cps@[mid as int].t));
                        }
                    }
                }
            }
            lo = mid + 1;
        } else {
            proof {
                if ordered::<T>() && sorted(cps@) {
                    assert forall|j: int| mid <= j < len implies !le(#[trigger] cps@[j].t, *t) by {
                        if mid < j {
                            assert(le(cps@[mid as int].t, cps@[j].t));
                        }
                    }
                }
            }
            hi = mid;
        }
    }
    if lo == 0 || lo == len {
        None
    } else {
        Some(lo - 1)
    }
}

/// Removing a key keeps sorted keys sorted.
proof fn lemma_remove_sorted<T: PartialOrd, V>(keys: Seq<Key<T, V>>, i: int)
    requires
        sorted(keys),
        0 <= i < keys.len(),
    ensures
        sorted(keys.remove(i)),
{
    let s = keys.remove(i);
    assert forall|a: int, b: int| 0 <= a < b < s.len() implies le(
        #[trigger] s[a].t,
        #[trigger] s[b].t,
    ) by {
        let a0 = if a < i { a } else { a + 1 };
        let b0 = if b < i { b } else { b + 1 };
        assert(le(keys[a0].t, keys[b0].t));
    }
}

/// Inserts `k` at its position in `keys` (see `order::insert_position`) and returns that
/// position.
fn insert_key<T: PartialOrd, V>(keys: &mut Vec<Key<T, V>>, k: Key<T, V>) -> (p: usize)
    requires
        old(keys)@.len() < usize::MAX,
    ensures
        p <= old(keys)@.len(),
        final(keys)@ == old(keys)@.insert(p as int, k),
        T::obeys_partial_cmp_spec() ==> p == insert_position(old(keys)@, k.t),
{
    let ghost start = keys@;
    let mut j: usize = keys.len();
    assert(start.take(j as int) =~= start);
    while j > 0 && !(keys[j - 1].t <= k.t)
        invariant
            keys@ == start,
            j <= start.len(),
            T::obeys_partial_cmp_spec() ==> insert_position(start, k.t) == insert_position(
                start.take(j as int),
                k.t,
            ),
        decreases j,
    {
        proof {
            let prefix = start.take(j as int);
            assert(prefix.drop_last() =~= start.take(j - 1));
            assert(prefix.last() == start[j - 1]);
        }
        j = j - 1;
    }
    proof {
        if j > 0 {
            assert(start.take(j as int).last() == start[j - 1]);
        }
    }
    keys.insert(j, k);
    j
}

impl<T, V> View for Spline<T, V> {
    type V = Seq<Key<T, V>>;

    /// The keys, in order.
    closed spec fn view(&self) -> Seq<Key<T, V>> {
        self.0@
    }
}

impl<T, V> Spline<T, V> {
    /// The keys, in ascending order of parameter.
    pub fn keys(&self) -> (r: &[Key<T, V>])
        ensures
            r@ == self@,
    {
        self.0.as_slice()
    }

    /// Number of keys.
    pub fn len(&self) -> (r: usize)
        ensures
            r == self@.len(),
    {
        self.0.len()
    }

    /// Whether the spline has no key.
    pub fn is_empty(&self) -> (r: bool)
        ensures
            r == (self@.len() == 0),
    {
        self.0.len() == 0
    }

    /// The key at `index`; `None` when there is no such key.
    pub fn get(&self, index: usize) -> (r: Option<&Key<T, V>>)
        ensures
            index < self@.len() ==> r == Some(&self@[index as int]),
            index >= self@.len() ==> r is None,
    {
        if index < self.0.len() {
            Some(&self.0[index])
        } else {
            None
        }
    }
}

impl<T: PartialOrd, V> Spline<T, V> {
    /// Well-formedness: when `T` is ordered, the keys are sorted. Every constructor establishes
    /// it and every method keeps it.
    pub open spec fn wf(&self) -> bool {
        ordered::<T>() ==> sorted(self@)
    }

    /// Creates a spline from keys in any order. They are sorted by parameter; keys with equal
    /// parameters keep their relative order.
    pub fn from_vec(keys: Vec<Key<T, V>>) -> (r: Self)
        ensures
            r@.len() == keys@.len(),
            r@.to_multiset() == keys@.to_multiset(),
            T::obeys_partial_cmp_spec() ==> r@ == sort_keys(keys@),
            r.wf(),
    {
        let ghost input = keys@;
        let total = keys.len();
        let mut out: Vec<Key<T, V>> = Vec::new();
        let mut rest = keys;
        let ghost mut n: int = 0;
        proof {
            assert(input.skip(0) =~= input);
            out@.to_multiset_ensures();
            assert(out@.to_multiset() =~= Multiset::empty());
            assert(Multiset::<Key<T, V>>::empty().add(input.to_multiset()) =~= input.to_multiset());
            assert(input.take(0) =~= Seq::<Key<T, V>>::empty());
        }
        while rest.len() > 0
            invariant
                total == input.len(),
                0 <= n <= input.len(),
                rest@ == input.skip(n),
                out@.len() == n,
                out@.to_multiset().add(rest@.to_multiset()) == input.to_multiset(),
                T::obeys_partial_cmp_spec() ==> out@ == sort_keys(input.take(n)),
                ordered::<T>() ==> sorted(out@),
            decreases rest.len(),
        {
            let ghost before = out@;
            let ghost rest_before = rest@;
            let k = rest.remove(0);
            proof {
                rest_before.to_multiset_ensures();
                if ordered::<T>() {
                    lemma_insert_sorted(before, k);
                }
            }
            let p = insert_key(&mut out, k);
            proof {
                vstd::seq_lib::to_multiset_insert(before, p as int, k);
                assert(rest@ =~= input.skip(n + 1));
                assert(input.take(n + 1).drop_last() =~= input.take(n));
                assert(input.take(n + 1).last() == k);
                n = n + 1;
            }
        }
        proof {
            assert(input.take(n) =~= input);
            rest@.to_multiset_ensures();
            assert(rest@.to_multiset() =~= Multiset::empty());
            out@.to_multiset_ensures();
        }
        Spline(out)
    }

    /// Creates a spline from the keys an iterator yields, in any order; see `from_vec`.
    pub fn from_iter<I>(iter: I) -> (r: Self)
        where
            I: Iterator<Item = Key<T, V>>,
        requires
            iter.obeys_prophetic_iter_laws(),
            iter.decrease() is Some,
        ensures
            r.wf(),
            r@.len() == iter.remaining().len(),
            r@.to_multiset() == iter.remaining().to_multiset(),
            T::obeys_partial_cmp_spec() ==> r@ == sort_keys(iter.remaining()),
    {
        let mut iter = iter;
        let ghost all = iter.remaining();
        let mut keys: Vec<Key<T, V>> = Vec::new();
        loop
            invariant
                iter.obeys_prophetic_iter_laws(),
                iter.decrease() is Some,
                all == keys@ + iter.remaining(),
            ensures
                keys@ == all,
            decreases iter.decrease()->0,
        {
            match iter.next() {
                Some(k) => {
                    keys.push(k);
                },
                None => {
                    assert(keys@ =~= all);
                    break;
                },
            }
        }
        Self::from_vec(keys)
    }

    /// Removes every key.
    pub fn clear(&mut self)
        ensures
            final(self)@.len() == 0,
            final(self).wf(),
    {
        self.0.clear();
    }

    /// Inserts a key at its place: after every key whose parameter is `<=` its own.
    pub fn add(&mut self, key: Key<T, V>)
        requires
            old(self).wf(),
            old(self)@.len() < usize::MAX,
        ensures
            final(self).wf(),
            final(self)@.len() == old(self)@.len() + 1,
            final(self)@.to_multiset() == old(self)@.to_multiset().insert(key),
            T::obeys_partial_cmp_spec() ==> final(self)@ == insert_sorted(old(self)@, key),
    {
        proof {
            if ordered::<T>() {
                lemma_insert_sorted(self.0@, key);
            }
            self.0@.to_multiset_ensures();
        }
        let ghost before = self.0@;
        let p = insert_key(&mut self.0, key);
        proof {
            vstd::seq_lib::to_multiset_insert(before, p as int, key);
        }
    }

    /// Removes the key at `index` and returns it; `None` when there is no such key.
    pub fn remove(&mut self, index: usize) -> (r: Option<Key<T, V>>)
        requires
            old(self).wf(),
        ensures
            final(self).wf(),
            index < old(self)@.len() ==> r == Some(old(self)@[index as int]) && final(self)@
                == old(self)@.remove(index as int),
            index >= old(self)@.len() ==> r is None && final(self)@ == old(self)@,
    {
        if index >= self.0.len() {
            None
        } else {
            proof {
                if ordered::<T>() {
                    lemma_remove_sorted(self.0@, index as int);
                }
            }
            Some(self.0.remove(index))
        }
    }

    /// Replaces the key at `index` by `f` of it, at the place that its parameter gives, and
    /// returns the key that was there; `None` when there is no such key.
    pub fn replace<F>(&mut self, index: usize, f: F) -> (r: Option<Key<T, V>>)
        where
            F: FnOnce(&Key<T, V>) -> Key<T, V>,
        requires
            old(self).wf(),
            index < old(self)@.len() ==> call_requires(f, (&old(self)@[index as int],)),
        ensures
            final(self).wf(),
            index >= old(self)@.len() ==> r is None && final(self)@ == old(self)@,
            index < old(self)@.len() ==> {
                &&& r == Some(old(self)@[index as int])
                &&& final(self)@.len() == old(self)@.len()
                &&& exists|k: Key<T, V>|
                    #![trigger call_ensures(f, (&old(self)@[index as int],), k)]
                    {
                        &&& call_ensures(f, (&old(self)@[index as int],), k)
                        &&& final(self)@.to_multiset() == old(self)@.remove(
                            index as int,
                        ).to_multiset().insert(k)
                        &&& T::obeys_partial_cmp_spec() ==> final(self)@ == insert_sorted(
                            old(self)@.remove(index as int),
                            k,
                        )
                    }
            },
    {
        if index >= self.0.len() {
            return None;
        }
        let key = match self.remove(index) {
            Some(key) => key,
            None => return None,
        };
        let k = f(&key);
        let ghost new_key = k;
        self.add(k);
        assert(call_ensures(f, (&old(self)@[index as int],), new_key));
        assert(self@.to_multiset() == old(self)@.remove(index as int).to_multiset().insert(new_key));
        assert(T::obeys_partial_cmp_spec() ==> self@ == insert_sorted(
            old(self)@.remove(index as int),
            new_key,
        ));
        Some(key)
    }

    /// The value and mode of the key at `index`, open for editing; `None` when there is no such
    /// key.
    pub fn get_mut(&mut self, index: usize) -> (r: Option<KeyMut<'_, T, V>>)
        requires
            old(self).wf(),
        ensures
            final(self).wf(),
            index >= old(self)@.len() ==> r is None && final(self)@ == old(self)@,
            index < old(self)@.len() ==> r is Some,
            r matches Some(k) ==> {
                &&& index < old(self)@.len()
                &&& *k.value == old(self)@[index as int].value
                &&& *k.interpolation == old(self)@[index as int].interpolation
                &&& final(self)@ == old(self)@.update(
                    index as int,
                    Key {
                        t: old(self)@[index as int].t,
                        value: *final(k.value),
                        interpolation: *final(k.interpolation),
                    },
                )
            },
    {
        if index < self.0.len() {
            let key = &mut self.0[index];
            Some(KeyMut { value: &mut key.value, interpolation: &mut key.interpolation })
        } else {
            None
        }
    }


}

/// The blend of the Bézier segment from value `a`, with outgoing tangent point `u`, to key `b`.
fn bezier_value<T: Interpolator, V: Interpolate<T>>(nt: T, a: V, u: V, b: &Key<T, V>) -> (v: V)
    ensures
        v == bezier_blend(nt, a, u, *b),
{
    match b.interpolation {
        Interpolation::Bezier(w) => V::cubic_bezier_mirrored(nt, a, u, w, b.value),
        Interpolation::StrokeBezier(w, _) => V::cubic_bezier(nt, a, u, w, b.value),
        _ => V::quadratic_bezier(nt, a, u, b.value),
    }
}

impl<T: Interpolator, V: Interpolate<T>> Spline<T, V> {
    /// Samples the spline at `t`, with the index of the key that starts the segment.
    ///
    /// `None` when `t` lies before the first key or at or after the last one, or when the mode
    /// of the segment lacks the keys it needs (Catmull-Rom near either end).
    pub fn sample_with_key(&self, t: T) -> (r: Option<SampledWithKey<V>>)
        requires
            self.wf(),
        ensures
            r matches Some(s) ==> s.key + 1 < self@.len(),
            self@.len() < 2 ==> r is None,
            ordered::<T>() ==> r == sampled(self@, t),
    {
        let keys = &self.0;
        let len = keys.len();
        let i = match search_lower_cp(keys.as_slice(), &t) {
            Some(i) => i,
            None => return None,
        };
        proof {
            if ordered::<T>() {
                lemma_segment_of(self@, t, i as int);
            }
        }
        let cp0 = &keys[i];
        let cp1 = &keys[i + 1];
        if let Interpolation::CatmullRom = cp0.interpolation {
            if i == 0 || i + 2 >= len {
                return None;
            }
        }
        let nt = t.normalize(cp0.t, cp1.t);
        let value = match cp0.interpolation {
            Interpolation::Step(threshold) => V::step(nt, threshold, cp0.value, cp1.value),
            Interpolation::Linear => V::lerp(nt, cp0.value, cp1.value),
            Interpolation::Cosine => V::cosine(nt, cp0.value, cp1.value),
            Interpolation::CatmullRom => {
                let x = &keys[i - 1];
                let y = &keys[i + 2];
                V::cubic_hermite(
                    nt,
                    (x.t, x.value),
                    (cp0.t, cp0.value),
                    (cp1.t, cp1.value),
                    (y.t, y.value),
                )
            },
            Interpolation::Bezier(u) => bezier_value(nt, cp0.value, u, cp1),
            Interpolation::StrokeBezier(u, _) => bezier_value(nt, cp0.value, u, cp1),
        };
        proof {
            assert(T::obeys_partial_cmp_spec() ==> value == blend(self@, i as int, nt));
        }
        Some(SampledWithKey { value, key: i })
    }

    /// Samples the spline at `t`; `None` as for `sample_with_key`.
    pub fn sample(&self, t: T) -> (r: Option<V>)
        requires
            self.wf(),
        ensures
            self@.len() < 2 ==> r is None,
            ordered::<T>() ==> r == value_of(sampled(self@, t)),
    {
        match self.sample_with_key(t) {
            Some(s) => Some(s.value),
            None => None,
        }
    }

    /// Samples the spline at `t`, clamping to the first key before it and to the last key after
    /// it, with the index of the key the value comes from.
    ///
    /// `None` when the spline has no key, or when sampling inside it gives no value.
    pub fn clamped_sample_with_key(&self, t: T) -> (r: Option<SampledWithKey<V>>)
        requires
            self.wf(),
        ensures
            self@.len() == 0 ==> r is None,
            r matches Some(s) ==> s.key < self@.len(),
            ordered::<T>() ==> r == clamped(self@, t),
    {
        let len = self.0.len();
        if len == 0 {
            return None;
        }
        match self.sample_with_key(t) {
            Some(s) => Some(s),
            None => {
                let first = &self.0[0];
                if t <= first.t {
                    Some(SampledWithKey { value: first.value, key: 0 })
                } else {
                    let last = &self.0[len - 1];
                    if last.t <= t {
                        Some(SampledWithKey { value: last.value, key: len - 1 })
                    } else {
                        None
                    }
                }
            },
        }
    }

    /// Samples the spline at `t` with clamping; `None` as for `clamped_sample_with_key`.
    pub fn clamped_sample(&self, t: T) -> (r: Option<V>)
        requires
            self.wf(),
        ensures
            self@.len() == 0 ==> r is None,
            ordered::<T>() ==> r == value_of(clamped(self@, t)),
    {
        match self.clamped_sample_with_key(t) {
            Some(s) => Some(s.value),
            None => None,
        }
    }
}

} // verus!
