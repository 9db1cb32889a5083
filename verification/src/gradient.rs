//! Colour gradients: stops at positions, kept in order, sampled anywhere.
//!
//! A stop is a pair of a position and a colour. Positions are `f32` values
//! carried as their bit patterns (see `float_order`); colours are of any
//! copyable type `C`, which this module moves around but never inspects. Where
//! linear interpolation has to mix two colours, `sample_at` names the two
//! stops to mix and leaves the arithmetic on colours to the caller.

use vstd::prelude::*;

use crate::float_order::{
    compare_bits, float_le, is_nan_bits, total_order_key, total_rank, value_rank, FloatOrder,
};
use crate::sorting::{
    argsort_by_key, is_stable_order, keys_of, lemma_stable_order_exists, permuted, spec_stable_order,
    lemma_stable_order_unique, stable_before, stable_order,
};

verus! {

/// The method used for interpolating between two points
#[derive(Clone, Copy, Debug, PartialEq, Eq, Structural)]
pub enum InterpolationMethod {
    /// Use the nearest value to the left of the sample point. If there is no key point to the left
    /// of the sample, use the nearest point on the _right_ instead.
    Constant,
    /// Linearly interpolate between the two stops to the left and right of the sample. If the sample
    /// is outside the range of the stops, use the value of the single nearest stop.
    Linear,
}

impl InterpolationMethod {
    /// The name under which the method is shown.
    pub open spec fn spec_name(self) -> Seq<char> {
        match self {
            InterpolationMethod::Linear => "linear"@,
            InterpolationMethod::Constant => "constant"@,
        }
    }

    /// The name under which the method is shown: `"linear"` or `"constant"`.
    pub fn to_string(&self) -> (s: String)
        ensures
            s@ == self.spec_name(),
    {
        match self {
            InterpolationMethod::Linear => "linear".to_owned(),
            InterpolationMethod::Constant => "constant".to_owned(),
        }
    }
}

/// The sort keys of a list of stops: the total-order rank of each position.
pub open spec fn stop_keys<C>(stops: Seq<(u32, C)>) -> Seq<i64> {
    Seq::new(stops.len(), |i: int| total_rank(stops[i].0) as i64)
}

/// The stops in ascending order of position, stops at equal positions (and all
/// NaN positions, which come last) in the order they were given.
pub open spec fn sorted_stops<C>(stops: Seq<(u32, C)>) -> Seq<(u32, C)> {
    permuted(stops, spec_stable_order(stop_keys(stops)))
}

/// The positions of `stops` never decrease in the total order.
pub open spec fn stops_in_order<C>(stops: Seq<(u32, C)>) -> bool {
    forall|a: int, b: int|
        0 <= a < b < stops.len() ==> total_rank(#[trigger] stops[a].0) <= total_rank(
            #[trigger] stops[b].0,
        )
}

/// `i` splits `stops` into the stops at or before `x` (all of `0..i`) and
/// those after `x` or unordered with it (all of `i..`).
pub open spec fn is_split<C>(stops: Seq<(u32, C)>, x: u32, i: int) -> bool {
    &&& 0 <= i <= stops.len()
    &&& forall|j: int| 0 <= j < i ==> float_le(#[trigger] stops[j].0, x)
    &&& forall|j: int| i <= j < stops.len() ==> !float_le(#[trigger] stops[j].0, x)
}

/// The number of leading stops at or before `x`.
pub open spec fn split_index<C>(stops: Seq<(u32, C)>, x: u32) -> int {
    choose|i: int| is_split(stops, x, i)
}

/// Some stop of `stops` has a NaN position.
pub open spec fn has_nan_stop<C>(stops: Seq<(u32, C)>) -> bool {
    exists|j: int| 0 <= j < stops.len() && is_nan_bits(#[trigger] stops[j].0)
}

/// Whether the binary search for `x` over `stops[lo..hi]` meets a NaN before
/// the range closes. The search probes the middle stop `lo + (hi - lo) / 2`
/// and goes on right of it when that stop is at or before `x`, left of it when
/// after; a probe where the stop or `x` is a NaN leaves the two unordered.
pub open spec fn search_meets_nan<C>(stops: Seq<(u32, C)>, x: u32, lo: int, hi: int) -> bool
    decreases hi - lo,
{
    if lo >= hi {
        false
    } else {
        let mid = lo + (hi - lo) / 2;
        if is_nan_bits(stops[mid].0) || is_nan_bits(x) {
            true
        } else if value_rank(stops[mid].0) <= value_rank(x) {
            search_meets_nan(stops, x, mid + 1, hi)
        } else {
            search_meets_nan(stops, x, lo, mid)
        }
    }
}

/// The value of a gradient at a point, as far as this module decides it.
#[derive(Debug, PartialEq, Eq)]
pub enum Sample<C> {
    /// The colour of one stop, unchanged.
    Color(C),
    /// The colour between two neighbouring stops at positions `t0 < t1`:
    /// `c0 + (c1 - c0) * ((x - t0) / (t1 - t0))` at the sample point `x`.
    Between { t0: u32, c0: C, t1: u32, c1: C },
}

/// The sample of `stops` when `i` stops lie at or before the sample point.
pub open spec fn spec_sample<C>(method: InterpolationMethod, stops: Seq<(u32, C)>, i: int) -> Option<
    Sample<C>,
> {
    if stops.len() == 0 {
        None
    } else if i == 0 {
        Some(Sample::Color(stops[0].1))
    } else {
        match method {
            InterpolationMethod::Constant => Some(Sample::Color(stops[i - 1].1)),
            InterpolationMethod::Linear => if i == stops.len() {
                Some(Sample::Color(stops[stops.len() - 1].1))
            } else {
                Some(
                    Sample::Between {
                        t0: stops[i - 1].0,
                        c0: stops[i - 1].1,
                        t1: stops[i].0,
                        c1: stops[i].1,
                    },
                )
            },
        }
    }
}

/// A ColorInterpolator can arbitrarily sample a gradient.
pub struct ColorInterpolator<C> {
    method: InterpolationMethod,
    keys: Vec<(u32, C)>,
}

impl<C> ColorInterpolator<C> {
    /// The stops of the interpolator always stand in order of position.
    #[verifier::type_invariant]
    spec fn keys_in_order(self) -> bool {
        stops_in_order(self.keys@)
    }

    /// The interpolation method.
    pub closed spec fn spec_method(&self) -> InterpolationMethod {
        self.method
    }

    /// The stops, in order of position.
    pub closed spec fn spec_keys(&self) -> Seq<(u32, C)> {
        self.keys@
    }
}

impl<C: Copy> ColorInterpolator<C> {
    /// An interpolator over `keys`, sorted stably by position.
    pub fn new(keys: Vec<(u32, C)>, method: InterpolationMethod) -> (r: Self)
        ensures
            r.spec_method() == method,
            r.spec_keys() == sorted_stops(keys@),
            stops_in_order(r.spec_keys()),
    {
        let sorted = sort_stops(&keys);
        ColorInterpolator { method, keys: sorted }
    }

    /// The interpolation method.
    pub fn method(&self) -> (m: InterpolationMethod)
        ensures
            m == self.spec_method(),
    {
        self.method
    }

    /// The number of stops.
    pub fn len(&self) -> (n: usize)
        ensures
            n == self.spec_keys().len(),
    {
        self.keys.len()
    }

    /// Find the insertion point for x to maintain order: the number of leading
    /// stops at or before `x`. `None` where a comparison meets a NaN.
    pub fn bisect(&self, x: u32) -> (r: Option<usize>)
        ensures
            r matches Some(i) ==> is_split(self.spec_keys(), x, i as int) && i == split_index(
                self.spec_keys(),
                x,
            ),
            self.spec_keys().len() == 0 ==> r == Some(0usize),
            r is None <==> search_meets_nan(self.spec_keys(), x, 0, self.spec_keys().len() as int),
            is_nan_bits(x) && self.spec_keys().len() > 0 ==> r is None,
            !is_nan_bits(x) && !has_nan_stop(self.spec_keys()) ==> r is Some,
            r is None ==> is_nan_bits(x) || has_nan_stop(self.spec_keys()),
    {
        proof {
            use_type_invariant(self);
        }
        let n = self.keys.len();
        let mut lo: usize = 0;
        let mut hi: usize = n;
        while lo < hi
            invariant
                n == self.keys@.len(),
                stops_in_order(self.keys@),
                lo <= hi <= n,
                is_nan_bits(x) ==> lo == 0 && hi == n,
                search_meets_nan(self.keys@, x, 0, n as int) == search_meets_nan(
                    self.keys@,
                    x,
                    lo as int,
                    hi as int,
                ),
                forall|j: int| 0 <= j < lo ==> float_le(#[trigger] self.keys@[j].0, x),
                forall|j: int| hi <= j < n ==> !float_le(#[trigger] self.keys@[j].0, x),
            decreases hi - lo,
        {
            let mid = lo + (hi - lo) / 2;
            let t = self.keys[mid].0;
            match compare_bits(t, x) {
                None => {
                    proof {
                        assert(is_nan_bits(self.keys@[mid as int].0) || is_nan_bits(x));
                    }
                    return None;
                },
                Some(FloatOrder::Greater) => {
                    proof {
                        assert forall|j: int| mid <= j < n implies !float_le(
                            #[trigger] self.keys@[j].0,
                            x,
                        ) by {
                            if j > mid {
                                assert(total_rank(self.keys@[mid as int].0) <= total_rank(
                                    self.keys@[j].0,
                                ));
                            }
                        }
                    }
                    hi = mid;
                },
                Some(_) => {
                    proof {
                        assert forall|j: int| 0 <= j <= mid implies float_le(
                            #[trigger] self.keys@[j].0,
                            x,
                        ) by {
                            if j < mid {
                                assert(total_rank(self.keys@[j].0) <= total_rank(
                                    self.keys@[mid as int].0,
                                ));
                            }
                        }
                    }
                    lo = mid + 1;
                },
            }
        }
        proof {
            lemma_split_unique(self.keys@, x, lo as int);
        }
        Some(lo)
    }

    /// Sample the gradient at the given position.
    ///
    /// Returns `None` if the gradient is empty, or where a comparison meets a NaN.
    pub fn sample_at(&self, x: u32) -> (r: Option<Sample<C>>)
        ensures
            r is Some ==> r == spec_sample(
                self.spec_method(),
                self.spec_keys(),
                split_index(self.spec_keys(), x),
            ),
            self.spec_keys().len() == 0 ==> r is None,
            is_nan_bits(x) ==> r is None,
            self.spec_keys().len() > 0 && !is_nan_bits(x) && !has_nan_stop(self.spec_keys())
                ==> r is Some,
            r is None ==> self.spec_keys().len() == 0 || is_nan_bits(x) || has_nan_stop(
                self.spec_keys(),
            ),
            r is None <==> self.spec_keys().len() == 0 || search_meets_nan(
                self.spec_keys(),
                x,
                0,
                self.spec_keys().len() as int,
            ),
    {
        let i = match self.bisect(x) {
            Some(i) => i,
            None => return None,
        };
        let n = self.keys.len();
        if n == 0 {
            return None;
        }
        if i == 0 {
            return Some(Sample::Color(self.keys[0].1));
        }
        match self.method {
            InterpolationMethod::Constant => Some(Sample::Color(self.keys[i - 1].1)),
            InterpolationMethod::Linear => {
                if i == n {
                    Some(Sample::Color(self.keys[n - 1].1))
                } else {
                    let (t0, c0) = self.keys[i - 1];
                    let (t1, c1) = self.keys[i];
                    Some(Sample::Between { t0, c0, t1, c1 })
                }
            },
        }
    }
}

/// A color gradient, that will be interpolated between a number of fixed points, a.k.a. _stops_.
pub struct Gradient<C> {
    pub stops: Vec<(u32, C)>,
    pub interpolation_method: InterpolationMethod,
}

impl<C: Copy> Gradient<C> {
    /// Create a new gradient from its key colors.
    pub fn new(interpolation_method: InterpolationMethod, stops: Vec<(u32, C)>) -> (r: Self)
        ensures
            r.interpolation_method == interpolation_method,
            r.stops@ == stops@,
    {
        Gradient { stops, interpolation_method }
    }

    /// Create a [ColorInterpolator] to evaluate the gradient at any point.
    pub fn interpolator(&self) -> (r: ColorInterpolator<C>)
        ensures
            r.spec_method() == self.interpolation_method,
            r.spec_keys() == sorted_stops(self.stops@),
            stops_in_order(r.spec_keys()),
    {
        ColorInterpolator::new(copy_stops(&self.stops), self.interpolation_method)
    }

    /// Create a [ColorInterpolator] over the gradient's stops with each colour
    /// converted by `convert` (for instance into the colour space in which the
    /// interpolator mixes colours). The stops are ordered by position exactly
    /// as `interpolator` orders them.
    pub fn interpolator_with<D: Copy, F: Fn(C) -> D>(&self, convert: F) -> (r: ColorInterpolator<D>)
        requires
            forall|i: int| 0 <= i < self.stops@.len() ==> call_requires(convert, (#[trigger] self.stops@[i].1,)),
        ensures
            r.spec_method() == self.interpolation_method,
            r.spec_keys().len() == self.stops@.len(),
            stops_in_order(r.spec_keys()),
            forall|k: int|
                0 <= k < self.stops@.len() ==> (#[trigger] r.spec_keys()[k]).0 == sorted_stops(
                    self.stops@,
                )[k].0 && call_ensures(convert, (sorted_stops(self.stops@)[k].1,), r.spec_keys()[k].1),
    {
        let mut converted: Vec<(u32, D)> = Vec::new();
        for i in 0..self.stops.len()
            invariant
                forall|j: int| 0 <= j < self.stops@.len() ==> call_requires(convert, (#[trigger] self.stops@[j].1,)),
                converted@.len() == i,
                forall|j: int|
                    0 <= j < i ==> (#[trigger] converted@[j]).0 == self.stops@[j].0 && call_ensures(
                        convert,
                        (self.stops@[j].1,),
                        converted@[j].1,
                    ),
        {
            let (t, c) = self.stops[i];
            let d = convert(c);
            converted.push((t, d));
        }
        proof {
            assert(stop_keys(converted@) =~= stop_keys(self.stops@));
            lemma_stable_order_exists(stop_keys(self.stops@));
        }
        let r = ColorInterpolator::new(converted, self.interpolation_method);
        proof {
            let order = spec_stable_order(stop_keys(self.stops@));
            assert forall|k: int| 0 <= k < self.stops@.len() implies (#[trigger] r.spec_keys()[k]).0
                == sorted_stops(self.stops@)[k].0 && call_ensures(
                convert,
                (sorted_stops(self.stops@)[k].1,),
                r.spec_keys()[k].1,
            ) by {
                assert(order[k] < self.stops@.len());
                assert(r.spec_keys()[k] == converted@[order[k] as int]);
            }
        }
        r
    }

    /// Produce a list of the indices of the gradient's stops that would place them in order.
    ///
    /// Use this to prepare for the upcoming reordering of the stops by [sort()](Gradient::sort).
    pub fn argsort(&self) -> (r: Vec<usize>)
        ensures
            is_stable_order(r@, stop_keys(self.stops@)),
            r@ == spec_stable_order(stop_keys(self.stops@)),
    {
        let by_position = |s: &(u32, C)| -> (k: i64)
            ensures
                k == total_rank(s.0),
            { total_order_key(s.0) };
        let r = argsort_by_key(self.stops.as_slice(), by_position);
        proof {
            let keys = keys_of(self.stops@, by_position);
            assert forall|i: int| 0 <= i < self.stops@.len() implies keys[i] == stop_keys(
                self.stops@,
            )[i] by {
                assert(call_ensures(by_position, (&self.stops@[i],), keys[i]));
            }
            assert(keys =~= stop_keys(self.stops@));
        }
        r
    }

    /// Sort the gradient's stops by ascending position.
    pub fn sort(&mut self)
        ensures
            final(self).stops@ == sorted_stops(old(self).stops@),
            final(self).interpolation_method == old(self).interpolation_method,
            stops_in_order(final(self).stops@),
    {
        self.stops = sort_stops(&self.stops);
    }
}

impl<C: Copy> Clone for Gradient<C> {
    fn clone(&self) -> (r: Self)
        ensures
            r.stops@ == self.stops@,
            r.interpolation_method == self.interpolation_method,
    {
        Gradient { stops: copy_stops(&self.stops), interpolation_method: self.interpolation_method }
    }
}

/// The stop that the "add stop" control inserts after: the selected stop, or
/// the last one, but never the first.
pub open spec fn insertion_index(selected: Option<usize>, len: int) -> int {
    let i = match selected {
        Some(i) => i as int,
        None => len - 1,
    };
    if i < 1 {
        1
    } else {
        i
    }
}

impl<C: Copy> Gradient<C> {
    /// Where the "add stop" control puts a new stop.
    ///
    /// With at most one stop nothing changes and the new stop goes to the middle
    /// of the gradient (`None` is returned as bounds). Otherwise the selection is
    /// mapped through `argsort`, the stops are sorted, and the new stop goes
    /// midway between stops `i - 1` and `i`, where `i` is the mapped selection
    /// (or the last stop), but at least 1: the positions of those two stops are
    /// returned, with the new selection.
    pub fn new_stop_bounds(&mut self, selected: Option<usize>) -> (r: (
        Option<usize>,
        Option<(u32, u32)>,
    ))
        requires
            old(self).stops@.len() > 1 ==> (selected matches Some(i) ==> i < old(
                self,
            ).stops@.len()),
        ensures
            final(self).interpolation_method == old(self).interpolation_method,
            old(self).stops@.len() <= 1 ==> final(self).stops@ == old(self).stops@ && r.0
                == selected && r.1 is None,
            old(self).stops@.len() > 1 ==> ({
                let order = spec_stable_order(stop_keys(old(self).stops@));
                let sel = match selected {
                    Some(i) => Some(order[i as int]),
                    None => None,
                };
                let after = sorted_stops(old(self).stops@);
                let i = insertion_index(sel, after.len() as int);
                &&& r.0 == sel
                &&& final(self).stops@ == after
                &&& 1 <= i < after.len()
                &&& r.1 == Some((after[i - 1].0, after[i].0))
            }),
            old(self).stops@.len() > 1 ==> (r.0 matches Some(s) ==> 1 <= s < final(self).stops@.len()
                ==> r.1 == Some((final(self).stops@[s - 1].0, final(self).stops@[s as int].0))),
            old(self).stops@.len() > 1 ==> (r.0 == Some(0usize) ==> r.1 == Some(
                (final(self).stops@[0].0, final(self).stops@[1].0),
            )),
            old(self).stops@.len() > 1 ==> (r.0 is None ==> r.1 == Some(
                (
                    final(self).stops@[final(self).stops@.len() - 2].0,
                    final(self).stops@[final(self).stops@.len() - 1].0,
                ),
            )),
    {
        let n = self.stops.len();
        if n <= 1 {
            return (selected, None);
        }
        let order = self.argsort();
        let sel = match selected {
            Some(i) => Some(order[i]),
            None => None,
        };
        self.sort();
        let mut i = match sel {
            Some(i) => i,
            None => n - 1,
        };
        if i < 1 {
            i = 1;
        }
        proof {
            if selected is Some {
                let idx = selected->0 as int;
                assert(order@[idx] < stop_keys(old(self).stops@).len());
            }
        }
        let left = self.stops[i - 1].0;
        let right = self.stops[i].0;
        (sel, Some((left, right)))
    }
}

/// A copy of a list of stops.
fn copy_stops<C: Copy>(stops: &Vec<(u32, C)>) -> (r: Vec<(u32, C)>)
    ensures
        r@ == stops@,
{
    let mut r: Vec<(u32, C)> = Vec::new();
    for i in 0..stops.len()
        invariant
            r@ =~= stops@.take(i as int),
    {
        r.push(stops[i]);
    }
    assert(stops@.take(stops@.len() as int) =~= stops@);
    r
}

/// The split point of a list of stops is unique.
pub proof fn lemma_split_unique<C>(stops: Seq<(u32, C)>, x: u32, i: int)
    requires
        is_split(stops, x, i),
    ensures
        split_index(stops, x) == i,
{
    let k = split_index(stops, x);
    assert(is_split(stops, x, k));
    if k < i {
        assert(float_le(stops[k].0, x));
    } else if k > i {
        assert(float_le(stops[i].0, x));
    }
}

/// `items` reordered by `order`: item `order[k]` goes to position `k`.
fn reorder<C: Copy>(items: &Vec<(u32, C)>, order: &Vec<usize>) -> (r: Vec<(u32, C)>)
    requires
        forall|k: int| 0 <= k < order@.len() ==> #[trigger] order@[k] < items@.len(),
    ensures
        r@ == permuted(items@, order@),
{
    let mut r: Vec<(u32, C)> = Vec::new();
    for k in 0..order.len()
        invariant
            forall|j: int| 0 <= j < order@.len() ==> #[trigger] order@[j] < items@.len(),
            r@ =~= permuted(items@, order@.take(k as int)),
    {
        r.push(items[order[k]]);
    }
    assert(order@.take(order@.len() as int) =~= order@);
    r
}

/// The stable order of `stops` by position.
fn stop_order<C: Copy>(stops: &Vec<(u32, C)>) -> (r: Vec<usize>)
    ensures
        is_stable_order(r@, stop_keys(stops@)),
        r@ == spec_stable_order(stop_keys(stops@)),
{
    let mut keys: Vec<i64> = Vec::new();
    for i in 0..stops.len()
        invariant
            keys@ =~= stop_keys(stops@.take(i as int)),
    {
        keys.push(total_order_key(stops[i].0));
    }
    assert(stops@.take(stops@.len() as int) =~= stops@);
    stable_order(&keys)
}

/// `stops`, sorted stably by position.
fn sort_stops<C: Copy>(stops: &Vec<(u32, C)>) -> (r: Vec<(u32, C)>)
    ensures
        r@ == sorted_stops(stops@),
        stops_in_order(r@),
{
    let order = stop_order(stops);
    let r = reorder(stops, &order);
    assert(stops@.len() == stops.len());
    proof {
        lemma_sorted_stops_in_order(stops@);
    }
    r
}

/// Sorting stops puts them in order of position, and keeps every stop: the
/// result is a rearrangement of the input.
pub proof fn lemma_sorted_stops_in_order<C>(stops: Seq<(u32, C)>)
    requires
        stops.len() <= usize::MAX,
    ensures
        stops_in_order(sorted_stops(stops)),
        sorted_stops(stops).len() == stops.len(),
        forall|i: int| 0 <= i < stops.len() ==> sorted_stops(stops).contains(#[trigger] stops[i]),
{
    let keys = stop_keys(stops);
    lemma_stable_order_exists(keys);
    let r = spec_stable_order(keys);
    let s = sorted_stops(stops);
    assert forall|a: int, b: int| 0 <= a < b < s.len() implies total_rank(#[trigger] s[a].0)
        <= total_rank(#[trigger] s[b].0) by {
        assert(stable_before(keys, r[a] as int, r[b] as int));
        assert(r[a] < keys.len());
        assert(r[b] < keys.len());
    }
    assert forall|i: int| 0 <= i < stops.len() implies s.contains(#[trigger] stops[i]) by {
        assert(r.contains(i as usize));
        let k = choose|k: int| 0 <= k < r.len() && r[k] == i as usize;
        assert(s[k] == stops[i]);
    }
}

/// Sorting places the stops in the order that `argsort` lists them: after
/// `sort`, the stop at position `k` is the one that stood at index `order[k]`
/// before, where `order` is what `argsort` returned.
pub proof fn law_sort_follows_argsort<C>(
    before: Seq<(u32, C)>,
    order: Seq<usize>,
    after: Seq<(u32, C)>,
)
    requires
        before.len() <= usize::MAX,
        order == spec_stable_order(stop_keys(before)),
        after == sorted_stops(before),
    ensures
        after.len() == before.len(),
        order.len() == before.len(),
        forall|k: int| 0 <= k < after.len() ==> #[trigger] after[k] == before[order[k] as int],
{
    lemma_stable_order_exists(stop_keys(before));
}

/// Stops already in order are left as they are by sorting.
pub proof fn law_sorting_sorted_stops_keeps_them<C>(stops: Seq<(u32, C)>)
    requires
        stops.len() <= usize::MAX,
        stops_in_order(stops),
    ensures
        sorted_stops(stops) == stops,
{
    let keys = stop_keys(stops);
    let id = Seq::new(stops.len(), |i: int| i as usize);
    assert forall|v: usize| v < keys.len() implies #[trigger] id.contains(v) by {
        assert(id[v as int] == v);
    }
    assert forall|a: int, b: int| 0 <= a < b < id.len() implies #[trigger] stable_before(
        keys,
        id[a] as int,
        id[b] as int,
    ) by {
        assert(total_rank(stops[a].0) <= total_rank(stops[b].0));
    }
    assert(is_stable_order(id, keys));
    lemma_stable_order_unique(keys, id);
    assert(sorted_stops(stops) =~= stops);
}

/// Sorting is idempotent: sorting sorted stops changes nothing.
pub proof fn law_sort_idempotent<C>(stops: Seq<(u32, C)>)
    requires
        stops.len() <= usize::MAX,
    ensures
        sorted_stops(sorted_stops(stops)) == sorted_stops(stops),
{
    lemma_sorted_stops_in_order(stops);
    law_sorting_sorted_stops_keeps_them(sorted_stops(stops));
}

/// Linear interpolation only ever mixes the two stops that bracket the sample
/// point: `t0 <= x < t1`, so `t1 - t0` is never zero.
pub proof fn law_between_brackets_sample<C>(
    stops: Seq<(u32, C)>,
    x: u32,
    t0: u32,
    c0: C,
    t1: u32,
    c1: C,
)
    requires
        spec_sample(InterpolationMethod::Linear, stops, split_index(stops, x)) == Some(
            Sample::Between { t0, c0, t1, c1 },
        ),
        stops_in_order(stops),
    ensures
        float_le(t0, x),
        !float_le(t1, x),
        !is_nan_bits(t1) ==> value_rank(t0) < value_rank(t1),
{
    lemma_split_exists(stops, x);
    let i = split_index(stops, x);
    assert(is_split(stops, x, i));
}

/// Stops in order of position split at every sample point: the stops at or
/// before it come first.
pub proof fn lemma_split_exists<C>(stops: Seq<(u32, C)>, x: u32)
    requires
        stops_in_order(stops),
    ensures
        is_split(stops, x, split_index(stops, x)),
    decreases stops.len(),
{
    if stops.len() == 0 {
        assert(is_split(stops, x, 0));
    } else {
        let last = stops.len() - 1;
        if float_le(stops[last].0, x) {
            assert forall|j: int| 0 <= j < stops.len() implies float_le(#[trigger] stops[j].0, x) by {
                if j < last {
                    assert(total_rank(stops[j].0) <= total_rank(stops[last].0));
                }
            }
            assert(is_split(stops, x, stops.len() as int));
        } else {
            let d = stops.drop_last();
            assert(stops_in_order(d)) by {
                assert forall|a: int, b: int| 0 <= a < b < d.len() implies total_rank(
                    #[trigger] d[a].0,
                ) <= total_rank(#[trigger] d[b].0) by {
                    assert(total_rank(stops[a].0) <= total_rank(stops[b].0));
                }
            }
            lemma_split_exists(d, x);
            let i = split_index(d, x);
            assert(is_split(d, x, i));
            assert forall|j: int| i <= j < stops.len() implies !float_le(#[trigger] stops[j].0, x) by {
                if j < last {
                    assert(d[j] == stops[j]);
                }
            }
            assert forall|j: int| 0 <= j < i implies float_le(#[trigger] stops[j].0, x) by {
                assert(d[j] == stops[j]);
            }
            assert(is_split(stops, x, i));
        }
    }
}

/// `p` lists every index of `0..n` exactly once.
pub open spec fn is_permutation(p: Seq<usize>, n: nat) -> bool {
    &&& p.len() == n
    &&& forall|k: int| 0 <= k < p.len() ==> #[trigger] p[k] < n
    &&& forall|v: usize| v < n ==> #[trigger] p.contains(v)
    &&& forall|a: int, b: int| 0 <= a < b < p.len() ==> #[trigger] p[a] != #[trigger] p[b]
}

/// No two stops share a position, and no position is a NaN.
pub open spec fn distinct_positions<C>(stops: Seq<(u32, C)>) -> bool {
    &&& forall|j: int| 0 <= j < stops.len() ==> !is_nan_bits(#[trigger] stops[j].0)
    &&& forall|a: int, b: int|
        0 <= a < b < stops.len() ==> value_rank(#[trigger] stops[a].0) != value_rank(
            #[trigger] stops[b].0,
        )
}

/// The interpolator evaluates the gradient whatever the order of its stops:
/// when no two stops share a position and none is a NaN, rearranging the stops
/// (stop `p[k]` moved to index `k`) gives the same sorted stops, so the same
/// interpolator and the same sample at every point.
pub proof fn law_sample_ignores_stop_order<C>(
    stops: Seq<(u32, C)>,
    p: Seq<usize>,
    method: InterpolationMethod,
)
    requires
        stops.len() <= usize::MAX,
        is_permutation(p, stops.len()),
        distinct_positions(stops),
    ensures
        sorted_stops(permuted(stops, p)) == sorted_stops(stops),
        forall|x: u32|
            #![trigger split_index(sorted_stops(permuted(stops, p)), x)]
            spec_sample(
                method,
                sorted_stops(permuted(stops, p)),
                split_index(sorted_stops(permuted(stops, p)), x),
            ) == spec_sample(method, sorted_stops(stops), split_index(sorted_stops(stops), x)),
{
    let n = stops.len();
    let stops2 = permuted(stops, p);
    let keys1 = stop_keys(stops);
    let keys2 = stop_keys(stops2);
    lemma_stable_order_exists(keys1);
    lemma_stable_order_exists(keys2);
    let r1 = spec_stable_order(keys1);
    let r2 = spec_stable_order(keys2);
    let q = Seq::new(n, |k: int| p[r2[k] as int]);
    assert forall|k: int| 0 <= k < q.len() implies #[trigger] q[k] < keys1.len() by {
        assert(r2[k] < keys2.len());
    }
    assert forall|v: usize| v < keys1.len() implies #[trigger] q.contains(v) by {
        assert(p.contains(v));
        let j = choose|j: int| 0 <= j < p.len() && p[j] == v;
        assert(r2.contains(j as usize));
        let k = choose|k: int| 0 <= k < r2.len() && r2[k] == j as usize;
        assert(q[k] == v);
    }
    assert forall|a: int, b: int| 0 <= a < b < q.len() implies #[trigger] stable_before(
        keys1,
        q[a] as int,
        q[b] as int,
    ) by {
        let ia = r2[a] as int;
        let ib = r2[b] as int;
        assert(stable_before(keys2, ia, ib));
        assert(ia < n && ib < n);
        assert(ia != ib);
        assert(p[ia] != p[ib]) by {
            if ia < ib {
                assert(p[ia] != p[ib]);
            } else {
                assert(p[ib] != p[ia]);
            }
        }
        assert(keys2[ia] == keys1[q[a] as int]);
        assert(keys2[ib] == keys1[q[b] as int]);
        let pa = q[a] as int;
        let pb = q[b] as int;
        assert(pa < n && pb < n && pa != pb);
        assert(value_rank(stops[pa].0) != value_rank(stops[pb].0)) by {
            if pa < pb {
                assert(value_rank(stops[pa].0) != value_rank(stops[pb].0));
            } else {
                assert(value_rank(stops[pb].0) != value_rank(stops[pa].0));
            }
        }
        assert(!is_nan_bits(stops[pa].0) && !is_nan_bits(stops[pb].0));
        assert(keys1[pa] != keys1[pb]);
    }
    assert(is_stable_order(q, keys1));
    lemma_stable_order_unique(keys1, q);
    assert(sorted_stops(stops2) =~= sorted_stops(stops)) by {
        assert forall|k: int| 0 <= k < n implies #[trigger] sorted_stops(stops2)[k] == sorted_stops(
            stops,
        )[k] by {
            assert(r2[k] < n);
            assert(stops2[r2[k] as int] == stops[q[k] as int]);
        }
    }
}

/// The "add stop" control inserts next to the selected stop: after stop `s`
/// of the sorted stops, between stops `s - 1` and `s`, for every selected
/// stop but the first; after the first gap for the first stop; and in the
/// last gap when nothing is selected.
pub proof fn law_new_stop_goes_next_to_the_selection(selected: Option<usize>, len: int)
    requires
        len > 1,
        selected matches Some(s) ==> s < len,
    ensures
        selected matches Some(s) ==> (1 <= s ==> insertion_index(selected, len) == s),
        selected == Some(0usize) ==> insertion_index(selected, len) == 1,
        selected is None ==> insertion_index(selected, len) == len - 1,
        1 <= insertion_index(selected, len) < len,
{
}

/// What a sample is, in terms of the stops around the sample point `x` (stops
/// in order): with no stop at or before `x`, the first stop's colour; with
/// constant interpolation, otherwise the colour of the last stop at or before
/// `x`; with linear interpolation, the last stop's colour when every stop is
/// at or before `x`, and otherwise the two neighbouring stops on either side
/// of `x`.
pub proof fn law_sample_uses_the_neighbouring_stops<C>(
    stops: Seq<(u32, C)>,
    x: u32,
    method: InterpolationMethod,
)
    requires
        stops_in_order(stops),
        stops.len() > 0,
    ensures
        !float_le(stops[0].0, x) ==> spec_sample(method, stops, split_index(stops, x)) == Some(
            Sample::Color(stops[0].1),
        ),
        method == InterpolationMethod::Constant && float_le(stops[0].0, x) ==> exists|j: int|
            0 <= j < stops.len() && float_le(#[trigger] stops[j].0, x) && (j + 1 == stops.len()
                || !float_le(stops[j + 1].0, x)) && spec_sample(method, stops, split_index(stops, x))
                == Some(Sample::Color(stops[j].1)),
        method == InterpolationMethod::Linear && float_le(stops[stops.len() - 1].0, x)
            ==> spec_sample(method, stops, split_index(stops, x)) == Some(
            Sample::Color(stops[stops.len() - 1].1),
        ),
        method == InterpolationMethod::Linear && float_le(stops[0].0, x) && !float_le(
            stops[stops.len() - 1].0,
            x,
        ) ==> exists|j: int|
            0 <= j && j + 1 < stops.len() && float_le(#[trigger] stops[j].0, x) && !float_le(
                stops[j + 1].0,
                x,
            ) && spec_sample(method, stops, split_index(stops, x)) == Some(
                Sample::Between { t0: stops[j].0, c0: stops[j].1, t1: stops[j + 1].0, c1: stops[j + 1].1 },
            ),
{
    lemma_split_exists(stops, x);
    let i = split_index(stops, x);
    assert(is_split(stops, x, i));
    let n = stops.len();
    if float_le(stops[0].0, x) {
        assert(i > 0);
        let j = i - 1;
        assert(float_le(stops[j].0, x));
        if i < n {
            assert(!float_le(stops[j + 1].0, x));
        }
        if float_le(stops[n - 1].0, x) {
            assert(i == n);
        } else {
            assert(i < n);
        }
    } else {
        assert(i == 0);
    }
}

} // verus!
