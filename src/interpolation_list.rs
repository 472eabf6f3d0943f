//! An append-only keyframe timeline with memoized position lookup.
use std::collections::HashMap;
use vstd::prelude::*;

use crate::interpolation::{Interpolatable, InterpolatableLocation, Interpolation};

verus! {

broadcast use vstd::std_specs::hash::group_hash_axioms;

/// A keyframe: a value at a cumulative position, and the mode of the segment
/// that links it to its predecessor (unused on the first keyframe).
#[derive(Clone, Copy, Debug)]
pub struct Keyframe<T> {
    pub value: T,
    pub sum_distance: u64,
    pub interpolation: Interpolation,
}

/// The value on the segment from `left` to `right` at `position`.
pub open spec fn segment_value<T: Interpolatable>(left: Keyframe<T>, right: Keyframe<T>, position: int) -> T {
    T::spec_interpolate(
        right.interpolation,
        crate::interpolation::local_ratio(position, left.sum_distance as int, right.sum_distance as int),
        left.value,
        right.value,
    )
}

/// Walking back from keyframe `j` to the first segment whose left end lies
/// before `position`, and interpolating there.
pub open spec fn walk<T: Interpolatable>(keys: Seq<Keyframe<T>>, position: int, j: int) -> T
    decreases j,
{
    if j <= 0 {
        keys[0].value
    } else if keys[j - 1].sum_distance < position {
        segment_value(keys[j - 1], keys[j], position)
    } else {
        walk(keys, position, j - 1)
    }
}

/// The value of a timeline with keyframes `keys` at `position`: the first value
/// at or below the first position, the last at or above the last position, and
/// the interpolation on the bracketing segment in between.
pub open spec fn value_at<T: Interpolatable>(keys: Seq<Keyframe<T>>, position: int) -> T {
    if position <= keys[0].sum_distance {
        keys[0].value
    } else if position >= keys.last().sum_distance {
        keys.last().value
    } else {
        walk(keys, position, keys.len() - 1)
    }
}

/// A well-formed chain: at least one keyframe, strictly increasing positions,
/// valid values and modes.
pub open spec fn chain_wf<T: Interpolatable>(keys: Seq<Keyframe<T>>) -> bool {
    &&& keys.len() >= 1
    &&& forall|i: int, j: int|
        0 <= i < j < keys.len() ==> (#[trigger] keys[i]).sum_distance < (#[trigger] keys[j]).sum_distance
    &&& forall|i: int| 0 <= i < keys.len() ==> (#[trigger] keys[i]).value.valid()
    &&& forall|i: int| 0 <= i < keys.len() ==> (#[trigger] keys[i]).interpolation.wf()
}

/// An ordered, append-only chain of keyframes with a memo cache of
/// previously computed interior values.
pub struct InterpolationList<T> {
    keys: Vec<Keyframe<T>>,
    buffer: HashMap<u64, T>,
}

impl<T: Interpolatable> View for InterpolationList<T> {
    type V = Seq<Keyframe<T>>;

    closed spec fn view(&self) -> Seq<Keyframe<T>> {
        self.keys@
    }
}

proof fn lemma_walk_prefix<T: Interpolatable>(keys: Seq<Keyframe<T>>, more: Seq<Keyframe<T>>, position: int, j: int)
    requires
        0 <= j < keys.len(),
        keys.len() <= more.len(),
        keys =~= more.subrange(0, keys.len() as int),
    ensures
        walk(keys, position, j) == walk(more, position, j),
    decreases j,
{
    if j > 0 {
        lemma_walk_prefix(keys, more, position, j - 1);
    }
}

/// Appending a keyframe past the last one leaves the value at every position up
/// to the old last position unchanged: memoized results stay valid.
pub proof fn lemma_append_coherence<T: Interpolatable>(keys: Seq<Keyframe<T>>, key: Keyframe<T>, position: int)
    requires
        chain_wf(keys),
        key.sum_distance > keys.last().sum_distance,
        key.value.valid(),
        key.interpolation.wf(),
        position <= keys.last().sum_distance,
    ensures
        value_at(keys.push(key), position) == value_at(keys, position),
{
    let more = keys.push(key);
    let n = keys.len() as int;
    assert(more[0] == keys[0]);
    if position > keys[0].sum_distance {
        assert(more[n - 1] == keys[n - 1]);
        assert(more.last() == key);
        lemma_walk_prefix(keys, more, position, n - 1);
        assert(walk(more, position, n) == walk(more, position, n - 1));
        if position == keys.last().sum_distance {
            assert(n >= 2);
            assert(keys[n - 2].sum_distance < keys[n - 1].sum_distance);
            let left = keys[n - 2];
            let right = keys[n - 1];
            let g = right.sum_distance - left.sum_distance;
            assert(g * 1_000_000 / g == 1_000_000) by (nonlinear_arith)
                requires
                    g > 0,
            ;
            assert(crate::interpolation::local_ratio(position, left.sum_distance as int, right.sum_distance as int)
                == 1_000_000);
            T::lemma_full_ratio(right.interpolation, left.value, right.value);
        }
    }
}

/// At or below the first position a timeline gives the first value; at or
/// above the last position it gives the last value.
pub proof fn lemma_boundaries<T: Interpolatable>(keys: Seq<Keyframe<T>>, position: int)
    requires
        chain_wf(keys),
    ensures
        position <= keys[0].sum_distance ==> value_at(keys, position) == keys[0].value,
        position >= keys.last().sum_distance ==> value_at(keys, position) == keys.last().value,
{
    if keys.len() > 1 {
        assert(keys[0].sum_distance < keys[keys.len() - 1].sum_distance);
    }
}

impl<T: Interpolatable> InterpolationList<T> {
    /// Keyframes well formed, and every cached value the value at its position.
    pub closed spec fn wf(&self) -> bool {
        &&& chain_wf(self.keys@)
        &&& forall|p: u64|
            #[trigger] self.buffer@.contains_key(p) ==> {
                &&& self.keys@[0].sum_distance < p < self.keys@.last().sum_distance
                &&& self.buffer@[p] == value_at(self.keys@, p as int)
            }
    }

    /// A timeline with one keyframe.
    pub fn new(distance: u64, value: T) -> (r: InterpolationList<T>)
        requires
            value.valid(),
        ensures
            r.wf(),
            r@ == seq![Keyframe { value, sum_distance: distance, interpolation: Interpolation::LINEAR }],
    {
        let mut keys = Vec::new();
        keys.push(Keyframe { value, sum_distance: distance, interpolation: Interpolation::LINEAR });
        InterpolationList { keys, buffer: HashMap::new() }
    }

    /// Appends a keyframe `length` past the last one, linked to it by `interpolation`.
    pub fn insert(&mut self, interpolation: Interpolation, length: u64, value: T)
        requires
            old(self).wf(),
            interpolation.wf(),
            value.valid(),
            length > 0,
            old(self)@.last().sum_distance + length <= u64::MAX,
        ensures
            final(self).wf(),
            final(self)@ == old(self)@.push(
                Keyframe {
                    value,
                    sum_distance: (old(self)@.last().sum_distance + length) as u64,
                    interpolation,
                },
            ),
    {
        let last = self.keys.len() - 1;
        let key = Keyframe { value, sum_distance: self.keys[last].sum_distance + length, interpolation };
        let ghost old_keys = self.keys@;
        self.keys.push(key);
        proof {
            assert forall|p: u64| #[trigger] self.buffer@.contains_key(p) implies {
                &&& self.keys@[0].sum_distance < p < self.keys@.last().sum_distance
                &&& self.buffer@[p] == value_at(self.keys@, p as int)
            } by {
                lemma_append_coherence(old_keys, key, p as int);
            }
            assert forall|i: int, j: int| 0 <= i < j < self.keys@.len() implies (
            #[trigger] self.keys@[i]).sum_distance < (#[trigger] self.keys@[j]).sum_distance by {
                if j == self.keys@.len() - 1 && i < j {
                    assert(old_keys[i].sum_distance <= old_keys.last().sum_distance) by {
                        if i < old_keys.len() - 1 {
                            assert(old_keys[i].sum_distance < old_keys[old_keys.len() - 1].sum_distance);
                        }
                    }
                }
            }
        }
    }

    /// The value at `position`, memoizing interior results.
    pub fn get_buffered(&mut self, position: u64) -> (r: T)
        requires
            old(self).wf(),
        ensures
            final(self).wf(),
            final(self)@ == old(self)@,
            r == value_at(old(self)@, position as int),
    {
        let last = self.keys.len() - 1;
        if position <= self.keys[0].sum_distance {
            self.keys[0].value
        } else if position >= self.keys[last].sum_distance {
            self.keys[last].value
        } else {
            match self.buffer.get(&position) {
                Some(v) => *v,
                None => {
                    let v = Self::interpolate_at(&self.keys, position);
                    self.buffer.insert(position, v);
                    v
                },
            }
        }
    }

    /// Walks back from the last keyframe to the segment that brackets `position`.
    fn interpolate_at(keys: &Vec<Keyframe<T>>, position: u64) -> (r: T)
        requires
            chain_wf(keys@),
            keys@[0].sum_distance < position < keys@.last().sum_distance,
        ensures
            r == walk(keys@, position as int, keys@.len() - 1),
    {
        let mut j = keys.len() - 1;
        while keys[j - 1].sum_distance >= position
            invariant
                1 <= j < keys.len(),
                chain_wf(keys@),
                keys@[0].sum_distance < position,
                keys@[j as int].sum_distance >= position,
                walk(keys@, position as int, keys@.len() - 1) == walk(keys@, position as int, j as int),
            decreases j,
        {
            j = j - 1;
        }
        let left = InterpolatableLocation::new(keys[j - 1].value, keys[j - 1].sum_distance);
        let right = InterpolatableLocation::new(keys[j].value, keys[j].sum_distance);
        left.interpolate(keys[j].interpolation, position, &right)
    }

    /// The memoized value at `position`, if one was computed.
    pub fn get_cached(&self, position: u64) -> (r: Option<T>)
        requires
            self.wf(),
        ensures
            r matches Some(v) ==> v == value_at(self@, position as int),
    {
        match self.buffer.get(&position) {
            Some(v) => Some(*v),
            None => None,
        }
    }

    /// The position of the last keyframe.
    pub fn get_max_position(&self) -> (r: u64)
        requires
            self.wf(),
        ensures
            r == self@.last().sum_distance,
    {
        self.keys[self.keys.len() - 1].sum_distance
    }

    /// The position of the first keyframe.
    pub fn get_min_position(&self) -> (r: u64)
        requires
            self.wf(),
        ensures
            r == self@[0].sum_distance,
    {
        self.keys[0].sum_distance
    }

    /// The well-formedness of a timeline is that of its chain.
    pub proof fn lemma_wf_chain(&self)
        requires
            self.wf(),
        ensures
            chain_wf(self@),
    {
    }
}

} // verus!
