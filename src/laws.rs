//! Laws of sampling and of building splines, stated over the models that the functions' own
//! contracts use.
use crate::interpolate::{Interpolate, Interpolator};
use crate::interpolation::Interpolation;
use crate::key::Key;
use crate::order::{
    distinct_params, insert_sorted, le, lemma_sort_keys, lt, lemma_sort_keys_sorted, lemma_sorted_unique,
    ordered, sort_keys, sorted,
};
use crate::spline::{
    clamped, has_neighbours, in_segment, lemma_segment_of, sampled,
    segment_of, SampledWithKey,
};
use vstd::prelude::*;

verus! {

/// Between a key that `t` does not precede and a later key that precedes `t`, some segment
/// holds `t`.
proof fn lemma_segment_between<T: PartialOrd, V>(keys: Seq<Key<T, V>>, t: T, lo: int, hi: int)
    requires
        ordered::<T>(),
        0 <= lo < hi < keys.len(),
        le(keys[lo].t, t),
        !le(keys[hi].t, t),
    ensures
        exists|i: int| lo <= i < hi && #[trigger] in_segment(keys, i, t),
    decreases hi - lo,
{
    if le(keys[hi - 1].t, t) {
        assert(in_segment(keys, hi - 1, t));
    } else {
        lemma_segment_between(keys, t, lo, hi - 1);
    }
}

/// No segment holds `t`: sampling there gives nothing.
proof fn lemma_outside_segments<T: Interpolator, V: Interpolate<T>>(keys: Seq<Key<T, V>>, t: T)
    requires
        forall|i: int| !#[trigger] in_segment(keys, i, t),
    ensures
        segment_of(keys, t) is None,
        sampled(keys, t) is None,
{
}

/// A spline of two keys `(t0, v0)` and `(t1, v1)`, `t0 < t1`, whose first key is linear:
/// sampling at any `t` in `[t0, t1)` gives the linear blend at the position of `t` (at `t0`, the
/// blend at the position of `t0`, which is `v0` for a faithful `lerp` and `normalize`), and no
/// value elsewhere, in particular at `t1`, where clamped sampling gives `v1`.
pub proof fn law_two_key_linear<T: Interpolator, V: Interpolate<T>>(
    k0: Key<T, V>,
    k1: Key<T, V>,
    t: T,
)
    requires
        ordered::<T>(),
        k0.interpolation is Linear,
        !le(k1.t, k0.t),
    ensures
        sorted(seq![k0, k1]),
        sampled(seq![k0, k1], k1.t) is None,
        clamped(seq![k0, k1], k1.t) == Some(SampledWithKey { value: k1.value, key: 1 }),
        le(k0.t, t) && !le(k1.t, t) ==> sampled(seq![k0, k1], t) == Some(
            SampledWithKey {
                value: V::lerp_spec(t.normalize_spec(k0.t, k1.t), k0.value, k1.value),
                key: 0,
            },
        ),
        !(le(k0.t, t) && !le(k1.t, t)) ==> sampled(seq![k0, k1], t) is None,
{
    let keys = seq![k0, k1];
    assert(le(k0.t, k1.t));
    assert(le(k1.t, k1.t));
    assert(sorted(keys));
    lemma_outside_segments(keys, k1.t);
    if le(k0.t, t) && !le(k1.t, t) {
        lemma_segment_of(keys, t, 0);
    } else {
        lemma_outside_segments(keys, t);
    }
}

/// Clamped sampling agrees with sampling wherever sampling gives a value: clamping only fills
/// in where sampling gives none.
pub proof fn law_clamped_agrees_with_sample<T: Interpolator, V: Interpolate<T>>(
    keys: Seq<Key<T, V>>,
    t: T,
)
    requires
        sampled(keys, t) is Some,
    ensures
        clamped(keys, t) == sampled(keys, t),
{
    let i = choose|i: int| #[trigger] in_segment(keys, i, t);
    assert(in_segment(keys, i, t));
}

/// Clamped sampling never comes back empty on a spline with keys whose Catmull-Rom keys all
/// have a key before and two keys after them; in general only a Catmull-Rom segment that lacks
/// them leaves it empty.
pub proof fn law_clamped_sample_total<T: Interpolator, V: Interpolate<T>>(
    keys: Seq<Key<T, V>>,
    t: T,
)
    requires
        ordered::<T>(),
        sorted(keys),
        keys.len() >= 1,
        forall|i: int|
            0 <= i < keys.len() - 1 && (#[trigger] keys[i]).interpolation is CatmullRom ==> 1
                <= i && i + 2 < keys.len(),
    ensures
        clamped(keys, t) is Some,
{
    if !le(t, keys[0].t) && !le(keys.last().t, t) {
        assert(le(keys[0].t, t));
        lemma_segment_between(keys, t, 0, keys.len() - 1);
        let i = choose|i: int| 0 <= i < keys.len() - 1 && #[trigger] in_segment(keys, i, t);
        assert(has_neighbours(keys, i));
        lemma_segment_of(keys, t, i);
    }
}

/// Sampling inside a Catmull-Rom segment without a key before it or a key after its end gives
/// no value.
pub proof fn law_catmull_rom_needs_neighbours<T: Interpolator, V: Interpolate<T>>(
    keys: Seq<Key<T, V>>,
    t: T,
    i: int,
)
    requires
        ordered::<T>(),
        sorted(keys),
        in_segment(keys, i, t),
        keys[i].interpolation is CatmullRom,
        i == 0 || i + 2 >= keys.len(),
    ensures
        sampled(keys, t) is None,
{
    lemma_segment_of(keys, t, i);
}

/// In a step segment, sampling gives the lower key's value while the normalized position of `t`
/// is below the threshold, and the upper key's value from there on. With a normalization that
/// maps the open segment into `(0, 1)`, a threshold of `0` thus always gives the upper value
/// inside the segment, and a threshold of `1` always the lower one.
pub proof fn law_step_threshold<T: Interpolator, V: Interpolate<T>>(
    keys: Seq<Key<T, V>>,
    t: T,
    i: int,
    threshold: T,
)
    requires
        ordered::<T>(),
        sorted(keys),
        in_segment(keys, i, t),
        keys[i].interpolation == Interpolation::<T, V>::Step(threshold),
    ensures
        sampled(keys, t) == Some(
            SampledWithKey {
                value: if lt(t.normalize_spec(keys[i].t, keys[i + 1].t), threshold) {
                    keys[i].value
                } else {
                    keys[i + 1].value
                },
                key: i as usize,
            },
        ),
{
    lemma_segment_of(keys, t, i);
}

/// Sampling never blends over an empty interval: the segment that holds a parameter starts
/// strictly before it ends, and a Catmull-Rom segment's neighbours lie strictly before its end
/// and strictly after its start. So `normalize` is never asked to place a parameter between equal
/// ends, and the Catmull-Rom tangents never divide by a zero width, even where keys share a
/// parameter.
pub proof fn law_segments_not_degenerate<T: PartialOrd, V>(keys: Seq<Key<T, V>>, t: T, i: int)
    requires
        ordered::<T>(),
        sorted(keys),
        in_segment(keys, i, t),
    ensures
        !le(keys[i + 1].t, keys[i].t),
        1 <= i ==> !le(keys[i + 1].t, keys[i - 1].t),
        i + 2 < keys.len() ==> !le(keys[i + 2].t, keys[i].t),
{
    if 1 <= i {
        assert(le(keys[i - 1].t, keys[i].t));
    }
    if i + 2 < keys.len() {
        assert(le(keys[i + 1].t, keys[i + 2].t));
    }
}

/// Adding a key to a spline built from some keys gives the keys of the spline built from all of
/// them at once: sorted, the same keys, with keys of equal parameter in order of arrival.
pub proof fn law_add_then_build<T: PartialOrd, V>(keys: Seq<Key<T, V>>, k: Key<T, V>)
    requires
        ordered::<T>(),
    ensures
        insert_sorted(sort_keys(keys), k) == sort_keys(keys.push(k)),
        sorted(sort_keys(keys.push(k))),
        sort_keys(keys.push(k)).to_multiset() == keys.push(k).to_multiset(),
{
    let all = keys.push(k);
    assert(all.drop_last() =~= keys);
    lemma_sort_keys(all);
}

/// Adding a key out of order, then sampling, is the same as building the spline from the keys
/// sorted beforehand: when no two keys share a parameter, the spline built from `keys` and then
/// given `k` holds exactly the keys of any sorted arrangement of `keys` and `k`, which building
/// from that arrangement keeps as they are.
pub proof fn law_add_matches_presorted<T: Interpolator, V: Interpolate<T>>(
    keys: Seq<Key<T, V>>,
    k: Key<T, V>,
    presorted: Seq<Key<T, V>>,
)
    requires
        ordered::<T>(),
        sorted(presorted),
        distinct_params(presorted),
        presorted.to_multiset() == keys.push(k).to_multiset(),
    ensures
        insert_sorted(sort_keys(keys), k) == presorted,
        sort_keys(presorted) == presorted,
        forall|t: T|
            sampled(insert_sorted(sort_keys(keys), k), t) == #[trigger] sampled(presorted, t),
        forall|t: T|
            clamped(insert_sorted(sort_keys(keys), k), t) == #[trigger] clamped(presorted, t),
{
    law_add_then_build(keys, k);
    lemma_sorted_unique(presorted, sort_keys(keys.push(k)));
    lemma_sort_keys_sorted(presorted);
}

/// Building a spline from keys that are already sorted keeps them as they are: a spline rebuilt
/// from its own keys, as a decoder of its list of key records does, has the same keys in the
/// same order, and hence samples the same everywhere.
pub proof fn law_rebuild_from_keys<T: Interpolator, V: Interpolate<T>>(keys: Seq<Key<T, V>>)
    requires
        sorted(keys),
    ensures
        sort_keys(keys) == keys,
        forall|t: T| sampled(sort_keys(keys), t) == #[trigger] sampled(keys, t),
        forall|t: T| clamped(sort_keys(keys), t) == #[trigger] clamped(keys, t),
{
    lemma_sort_keys_sorted(keys);
}

} // verus!
