//! Palettes: strategies that map a dwell value to a color through a timeline
//! of key colors.
use vstd::prelude::*;

use crate::color::Color;
use crate::fractal::FractalRepresentation;
use crate::interpolation::{Interpolation, UNIT};
use crate::interpolation_list::{InterpolationList, Keyframe};

verus! {

/// Timeline positions are key-color positions times this factor.
pub const PRECISION_FACTOR: i64 = 100;

/// A seed color at a position, in millionths.
#[derive(Clone, Copy, Debug)]
pub struct KeyColor {
    pub position: i64,
    pub color: Color,
}

impl KeyColor {
    pub fn new(position: i64, color: Color) -> (r: KeyColor)
        ensures
            r.position == position,
            r.color == color,
    {
        KeyColor { position, color }
    }
}

/// A mapping from dwell values (in millionths) to colors.
///
/// The spec functions describe what a palette does. Their defaults say only
/// that a palette gives valid colors; the palettes of this crate state exactly
/// which color they give and how `set_max` and `prepare` change them.
pub trait ColorPalette: Sized {
    /// The palette is ready for use.
    open spec fn inv(&self) -> bool {
        true
    }

    /// `c` is the color this palette gives for `index`.
    open spec fn gives_color(&self, index: int, c: Color) -> bool {
        c.wf()
    }

    /// The palette may be asked for the color of `index`.
    open spec fn accepts(&self, index: int) -> bool {
        true
    }

    /// `next` is this palette calibrated to the largest iteration count `max`.
    open spec fn max_set(&self, max: int, next: Self) -> bool {
        true
    }

    /// `next` is this palette after reading the sample values `samples`.
    open spec fn prepared(&self, samples: Seq<i64>, next: Self) -> bool {
        true
    }

    /// Calibrates a scale-dependent palette to the largest iteration count.
    fn set_max(&mut self, max: u64)
        requires
            old(self).inv(),
        ensures
            final(self).inv(),
            old(self).max_set(max as int, *final(self)),
    ;

    /// Reads a whole computation before the first lookup of a pass.
    fn prepare<C>(&mut self, fractal: &FractalRepresentation<C>)
        requires
            old(self).inv(),
            fractal.wf(),
        ensures
            final(self).inv(),
            old(self).prepared(crate::fractal::samples_of(fractal.points@), *final(self)),
    ;

    /// The color of `index`; a lookup does not change what the palette gives.
    fn get_color(&mut self, index: i64) -> (r: Color)
        requires
            old(self).inv(),
            old(self).accepts(index as int),
        ensures
            final(self).inv(),
            old(self).gives_color(index as int, r),
            forall|i: int, c: Color| #[trigger] final(self).gives_color(i, c) == old(self).gives_color(i, c),
            forall|i: int| #[trigger] final(self).accepts(i) == old(self).accepts(i),
            r.wf(),
    ;
}

/// Two palette states give the same colors and take the same indices.
pub open spec fn same_behaviour<P: ColorPalette>(a: P, b: P) -> bool {
    &&& forall|i: int, c: Color| #[trigger] b.gives_color(i, c) == a.gives_color(i, c)
    &&& forall|i: int| #[trigger] b.accepts(i) == a.accepts(i)
}

pub(crate) proof fn lemma_same_behaviour_flip<P: ColorPalette>(a: P, b: P)
    requires
        same_behaviour(a, b),
    ensures
        same_behaviour(b, a),
{
    assert forall|i: int, c: Color| #[trigger] a.gives_color(i, c) == b.gives_color(i, c) by {
        assert(b.gives_color(i, c) == a.gives_color(i, c));
    }
    assert forall|i: int| #[trigger] a.accepts(i) == b.accepts(i) by {
        assert(b.accepts(i) == a.accepts(i));
    }
}

pub(crate) proof fn lemma_same_behaviour_chain<P: ColorPalette>(a: P, b: P, c: P)
    requires
        same_behaviour(a, b),
        same_behaviour(b, c),
    ensures
        same_behaviour(a, c),
{
    assert forall|i: int, k: Color| #[trigger] c.gives_color(i, k) == a.gives_color(i, k) by {
        assert(c.gives_color(i, k) == b.gives_color(i, k));
        assert(b.gives_color(i, k) == a.gives_color(i, k));
    }
    assert forall|i: int| #[trigger] c.accepts(i) == a.accepts(i) by {
        assert(c.accepts(i) == b.accepts(i));
        assert(b.accepts(i) == a.accepts(i));
    }
}

/// A real number in millionths times `PRECISION_FACTOR`, cut to an unsigned
/// integer (toward zero, negatives to zero).
pub open spec fn hundredths(position: int) -> int {
    if position <= 0 {
        0
    } else {
        position / 10_000
    }
}

/// The remainder of `x / m` with the sign of `x`, for a positive `m`.
pub open spec fn trunc_rem(x: int, m: int) -> int {
    if x >= 0 {
        x % m
    } else {
        -((-x) % m)
    }
}

/// A fixed-point value cut to an unsigned integer: toward zero, negatives to zero.
pub open spec fn cut(x: int, unit: int) -> int {
    if x <= 0 {
        0
    } else {
        x / unit
    }
}

/// `forall` positions of the key colors, the timeline holds one keyframe
/// at that position, with the color of the first key color there.
pub open spec fn chain_of_key_colors(
    keys: Seq<Keyframe<Color>>,
    key_colors: Seq<KeyColor>,
    interpolation: Interpolation,
) -> bool {
    &&& crate::interpolation_list::chain_wf(keys)
    &&& covers_all(keys, key_colors)
    &&& from_key_colors(keys, key_colors, interpolation)
}

/// Every key color has its position in the chain.
#[verifier::opaque]
pub open spec fn covers_all(keys: Seq<Keyframe<Color>>, key_colors: Seq<KeyColor>) -> bool {
    forall|j: int| 0 <= j < key_colors.len() ==> has_position(keys, hundredths((#[trigger] key_colors[j]).position as int))
}

/// Some keyframe stands at position `p`.
pub open spec fn has_position(keys: Seq<Keyframe<Color>>, p: int) -> bool {
    exists|i: int| 0 <= i < keys.len() && (#[trigger] keys[i]).sum_distance == p
}

/// Key color `j` is the first at timeline position `p`.
pub open spec fn first_key_color_at(key_colors: Seq<KeyColor>, j: int, p: int) -> bool {
    &&& hundredths(key_colors[j].position as int) == p
    &&& forall|k: int| 0 <= k < j ==> hundredths((#[trigger] key_colors[k]).position as int) != p
}

/// Every key color at or below `last` has its position in the chain.
#[verifier::opaque]
pub open spec fn covers(keys: Seq<Keyframe<Color>>, key_colors: Seq<KeyColor>, last: u64) -> bool {
    forall|j: int| 0 <= j < key_colors.len() && !above(hundredths((#[trigger] key_colors[j]).position as int), Some(last)) ==>
        has_position(keys, hundredths(key_colors[j].position as int))
}

/// Every keyframe holds the first key color at its position, linked by `interpolation`.
#[verifier::opaque]
pub open spec fn from_key_colors(keys: Seq<Keyframe<Color>>, key_colors: Seq<KeyColor>, interpolation: Interpolation) -> bool {
    &&& forall|i: int| 0 <= i < keys.len() ==>
        exists|j: int| 0 <= j < key_colors.len() && first_key_color_at(key_colors, j, (#[trigger] keys[i]).sum_distance as int)
            && keys[i].value == key_colors[j].color
    &&& forall|i: int| 1 <= i < keys.len() ==> (#[trigger] keys[i]).interpolation == interpolation
}

proof fn lemma_extend_chain(
    old_list: Seq<Keyframe<Color>>,
    list: Seq<Keyframe<Color>>,
    key_colors: Seq<KeyColor>,
    last: u64,
    p: u64,
    j: int,
    interpolation: Interpolation,
)
    requires
        0 <= j < key_colors.len(),
        p == hundredths(key_colors[j].position as int),
        p > last,
        forall|k: int| 0 <= k < key_colors.len() && above(hundredths((#[trigger] key_colors[k]).position as int), Some(last))
            ==> hundredths(key_colors[k].position as int) >= p,
        first_key_color_at(key_colors, j, p as int),
        list == old_list.push(Keyframe { value: key_colors[j].color, sum_distance: p, interpolation }),
        covers(old_list, key_colors, last),
        from_key_colors(old_list, key_colors, interpolation),
    ensures
        covers(list, key_colors, p),
        from_key_colors(list, key_colors, interpolation),
{
    reveal(covers);
    reveal(from_key_colors);
    let n = old_list.len() as int;
    assert(list[n].sum_distance == p);
    assert forall|m: int| 0 <= m < key_colors.len() && !above(hundredths((#[trigger] key_colors[m]).position as int), Some(p)) implies
        has_position(list, hundredths(key_colors[m].position as int)) by {
        if above(hundredths(key_colors[m].position as int), Some(last)) {
            assert(list[n].sum_distance == hundredths(key_colors[m].position as int));
        } else {
            let i = choose|i: int| 0 <= i < old_list.len() && (#[trigger] old_list[i]).sum_distance == hundredths(key_colors[m].position as int);
            assert(list[i] == old_list[i]);
        }
    }
    assert forall|i: int| 0 <= i < list.len() implies
        exists|j2: int| 0 <= j2 < key_colors.len() && first_key_color_at(key_colors, j2, (#[trigger] list[i]).sum_distance as int)
            && list[i].value == key_colors[j2].color by {
        if i < n {
            assert(list[i] == old_list[i]);
        } else {
            assert(list[i].value == key_colors[j].color);
        }
    }
    assert forall|i: int| 1 <= i < list.len() implies (#[trigger] list[i]).interpolation == interpolation by {
        if i < n {
            assert(list[i] == old_list[i]);
        }
    }
}

proof fn lemma_covers_all(keys: Seq<Keyframe<Color>>, key_colors: Seq<KeyColor>, last: u64)
    requires
        covers(keys, key_colors, last),
        forall|k: int| 0 <= k < key_colors.len() ==> !above(hundredths((#[trigger] key_colors[k]).position as int), Some(last)),
    ensures
        covers_all(keys, key_colors),
{
    reveal(covers);
    reveal(covers_all);
    assert forall|j: int| 0 <= j < key_colors.len() implies
        has_position(keys, hundredths(key_colors[j].position as int)) by {
        assert(!above(hundredths(key_colors[j].position as int), Some(last)));
    }
    assert(covers_all(keys, key_colors));
}

proof fn lemma_init_chain(keys: Seq<Keyframe<Color>>, key_colors: Seq<KeyColor>, j0: int, interpolation: Interpolation)
    requires
        0 <= j0 < key_colors.len(),
        keys.len() == 1,
        keys[0].sum_distance == hundredths(key_colors[j0].position as int),
        keys[0].value == key_colors[j0].color,
        forall|k: int| 0 <= k < key_colors.len() ==>
            hundredths((#[trigger] key_colors[k]).position as int) >= hundredths(key_colors[j0].position as int),
        first_key_color_at(key_colors, j0, hundredths(key_colors[j0].position as int)),
    ensures
        covers(keys, key_colors, keys[0].sum_distance),
        from_key_colors(keys, key_colors, interpolation),
{
    reveal(covers);
    reveal(from_key_colors);
    let last = keys[0].sum_distance;
    assert forall|j: int| 0 <= j < key_colors.len() && !above(hundredths((#[trigger] key_colors[j]).position as int), Some(last)) implies
        has_position(keys, hundredths(key_colors[j].position as int)) by {
        assert(keys[0].sum_distance == hundredths(key_colors[j].position as int));
    }
    assert(first_key_color_at(key_colors, j0, keys[0].sum_distance as int));
}

/// The index of the first key color with the least position above `bound`
/// (above every position where `bound` is `None`).
fn next_key_color(key_colors: &Vec<KeyColor>, bound: Option<u64>) -> (r: Option<usize>)
    ensures
        match r {
            Some(j) => {
                &&& j < key_colors.len()
                &&& above(hundredths(key_colors@[j as int].position as int), bound)
                &&& forall|k: int| 0 <= k < key_colors.len() && above(hundredths((#[trigger] key_colors@[k]).position as int), bound)
                    ==> hundredths(key_colors@[k].position as int) >= hundredths(key_colors@[j as int].position as int)
                &&& first_key_color_at(key_colors@, j as int, hundredths(key_colors@[j as int].position as int))
            },
            None => forall|k: int| 0 <= k < key_colors.len() ==> !above(hundredths((#[trigger] key_colors@[k]).position as int), bound),
        },
{
    let mut best: Option<usize> = None;
    let mut best_pos: u64 = 0;
    let mut k: usize = 0;
    while k < key_colors.len()
        invariant
            0 <= k <= key_colors.len(),
            match best {
                Some(j) => {
                    &&& j < k
                    &&& best_pos == hundredths(key_colors@[j as int].position as int)
                    &&& above(best_pos as int, bound)
                    &&& forall|m: int| 0 <= m < k && above(hundredths((#[trigger] key_colors@[m]).position as int), bound)
                        ==> hundredths(key_colors@[m].position as int) >= best_pos
                    &&& forall|m: int| 0 <= m < j ==> hundredths((#[trigger] key_colors@[m]).position as int) != best_pos
                },
                None => forall|m: int| 0 <= m < k ==> !above(hundredths((#[trigger] key_colors@[m]).position as int), bound),
            },
        decreases key_colors.len() - k,
    {
        let p = to_hundredths(key_colors[k].position);
        let is_above = match bound {
            Some(b) => p > b,
            None => true,
        };
        if is_above {
            match best {
                Some(_) => {
                    if p < best_pos {
                        best = Some(k);
                        best_pos = p;
                    }
                },
                None => {
                    best = Some(k);
                    best_pos = p;
                },
            }
        }
        k = k + 1;
    }
    best
}

/// `p` lies above `bound` (every `p` does where there is none).
pub open spec fn above(p: int, bound: Option<u64>) -> bool {
    match bound {
        Some(b) => p > b,
        None => true,
    }
}

fn to_hundredths(position: i64) -> (r: u64)
    ensures
        r == hundredths(position as int),
{
    if position <= 0 {
        0
    } else {
        (position / 10_000) as u64
    }
}

/// The count of key colors whose position lies above `bound`.
spec fn count_above(key_colors: Seq<KeyColor>, bound: Option<u64>) -> nat
    decreases key_colors.len(),
{
    if key_colors.len() == 0 {
        0
    } else {
        count_above(key_colors.drop_last(), bound) + if above(hundredths(key_colors.last().position as int), bound) {
            1nat
        } else {
            0nat
        }
    }
}

proof fn lemma_count_above_shrinks(key_colors: Seq<KeyColor>, bound: Option<u64>, next: u64, j: int)
    requires
        above(next as int, bound),
        0 <= j < key_colors.len(),
        hundredths(key_colors[j].position as int) == next,
    ensures
        count_above(key_colors, Some(next)) < count_above(key_colors, bound),
    decreases key_colors.len(),
{
    lemma_count_above_mono(key_colors.drop_last(), bound, next);
    if j < key_colors.len() - 1 {
        lemma_count_above_shrinks(key_colors.drop_last(), bound, next, j);
    }
}

proof fn lemma_count_above_mono(key_colors: Seq<KeyColor>, bound: Option<u64>, next: u64)
    requires
        above(next as int, bound),
    ensures
        count_above(key_colors, Some(next)) <= count_above(key_colors, bound),
    decreases key_colors.len(),
{
    if key_colors.len() > 0 {
        lemma_count_above_mono(key_colors.drop_last(), bound, next);
    }
}

/// The timeline of a non-empty list of key colors: positions times
/// `PRECISION_FACTOR`, in increasing order; where several key colors share a
/// position, the first of them gives the color.
pub fn get_list_from_key_color(key_colors: Vec<KeyColor>, interpolation: Interpolation) -> (r: InterpolationList<Color>)
    requires
        key_colors.len() >= 1,
        forall|j: int| 0 <= j < key_colors.len() ==> (#[trigger] key_colors@[j]).color.wf(),
        interpolation.wf(),
    ensures
        r.wf(),
        chain_of_key_colors(r@, key_colors@, interpolation),
{
    let first = next_key_color(&key_colors, None);
    let j0 = match first {
        Some(j) => j,
        None => {
            assert(above(hundredths(key_colors@[0].position as int), None));
            0
        },
    };
    let mut last = to_hundredths(key_colors[j0].position);
    let mut list = InterpolationList::new(last, key_colors[j0].color);
    proof {
        lemma_init_chain(list@, key_colors@, j0 as int, interpolation);
    }
    loop
        invariant
            list.wf(),
            forall|j: int| 0 <= j < key_colors.len() ==> (#[trigger] key_colors@[j]).color.wf(),
            interpolation.wf(),
            list@.last().sum_distance == last,
            covers(list@, key_colors@, last),
            from_key_colors(list@, key_colors@, interpolation),
        ensures
            forall|k: int| 0 <= k < key_colors.len() ==> !above(hundredths((#[trigger] key_colors@[k]).position as int), Some(last)),
        decreases count_above(key_colors@, Some(last)),
    {
        proof {
            list.lemma_wf_chain();
        }
        match next_key_color(&key_colors, Some(last)) {
            None => {
                break;
            },
            Some(j) => {
                let p = to_hundredths(key_colors[j].position);
                proof {
                    lemma_count_above_shrinks(key_colors@, Some(last), p, j as int);
                }
                let ghost old_list = list@;
                list.insert(interpolation, p - last, key_colors[j].color);
                proof {
                    lemma_extend_chain(old_list, list@, key_colors@, last, p, j as int, interpolation);
                }
                last = p;
            },
        }
    }
    proof {
        list.lemma_wf_chain();
        lemma_covers_all(list@, key_colors@, last);
    }
    list
}

/// The timeline position of the repeating palette: `index * PRECISION_FACTOR`
/// modulo `max_position + 1`, cut to an unsigned integer.
pub open spec fn repeating_position(index: int, max_position: int) -> int {
    cut(trunc_rem(index * PRECISION_FACTOR, (max_position + 1) * UNIT), UNIT as int)
}

/// The timeline position of the scaling palette: `index * 100 * PRECISION_FACTOR / scale`,
/// cut to an unsigned integer (with a zero scale: the largest position for a
/// positive index, else zero).
pub open spec fn scaling_position(index: int, scale: int) -> int {
    if scale == 0 {
        if index > 0 {
            u64::MAX as int
        } else {
            0
        }
    } else {
        cut(index * 10_000, scale * UNIT)
    }
}

/// The timeline position of the logarithmic palette for a logarithm `factor`
/// (in millionths): its fractional part times the palette's span.
pub open spec fn logarithmic_position(factor: int, span: int) -> int {
    cut(trunc_rem(factor, UNIT as int) * span, UNIT as int)
}

/// The timeline position of the exponential palette for a warped index
/// (in millionths): modulo `span + 1`, cut to an unsigned integer.
pub open spec fn exponential_position(warped: int, span: int) -> int {
    cut(trunc_rem(warped, (span + 1) * UNIT), UNIT as int)
}

/// The color of a palette timeline at a position.
pub open spec fn color_at(keys: Seq<Keyframe<Color>>, position: int) -> Color {
    crate::interpolation_list::value_at(keys, position)
}

fn cut_fixed(x: i128, unit: i128) -> (r: u64)
    requires
        unit > 0,
        x / unit <= u64::MAX,
    ensures
        r == cut(x as int, unit as int),
{
    if x <= 0 {
        0
    } else {
        (x / unit) as u64
    }
}

fn rem_fixed(x: i128, m: i128) -> (r: i128)
    requires
        m > 0,
        x > i128::MIN,
    ensures
        r == trunc_rem(x as int, m as int),
        -m < r < m,
{
    if x >= 0 {
        x % m
    } else {
        -((-x) % m)
    }
}

proof fn lemma_cut_rem_bound(x: int, m: int, unit: int)
    requires
        unit > 0,
        -m < x < m,
        m <= 0x1_0000_0000_0000_0000 * unit,
    ensures
        x / unit <= u64::MAX,
{
    assert(x / unit <= m / unit) by (nonlinear_arith)
        requires
            x < m,
            unit > 0,
    ;
    assert(x / unit < 0x1_0000_0000_0000_0000) by (nonlinear_arith)
        requires
            x < m,
            m <= 0x1_0000_0000_0000_0000 * unit,
            unit > 0,
    ;
}

/// Loops through the key colors: the position wraps past the last key color.
pub struct RepeatingColorPalette {
    key_color_list: InterpolationList<Color>,
}

impl RepeatingColorPalette {
    pub closed spec fn wf(self) -> bool {
        self.key_color_list.wf()
    }

    /// The keyframes of the palette's timeline.
    pub closed spec fn keys(self) -> Seq<Keyframe<Color>> {
        self.key_color_list@
    }

    pub fn new(interpolation: Interpolation, key_colors: Vec<KeyColor>) -> (r: Self)
        requires
            key_colors.len() >= 1,
            forall|j: int| 0 <= j < key_colors.len() ==> (#[trigger] key_colors@[j]).color.wf(),
            interpolation.wf(),
        ensures
            r.wf(),
            chain_of_key_colors(r.keys(), key_colors@, interpolation),
    {
        RepeatingColorPalette { key_color_list: get_list_from_key_color(key_colors, interpolation) }
    }

    /// The color at `index` (in millionths), wrapping past the last key color.
    pub fn get_color(&mut self, index: i64) -> (r: Color)
        requires
            old(self).wf(),
        ensures
            final(self).wf(),
            final(self).keys() == old(self).keys(),
            r == color_at(old(self).keys(), repeating_position(index as int, old(self).keys().last().sum_distance as int)),
            r.wf(),
    {
        proof {
            self.key_color_list.lemma_wf_chain();
        }
        let n = self.key_color_list.get_max_position() as i128;
        let m = (n + 1) * (UNIT as i128);
        let rem = rem_fixed(index as i128 * 100, m);
        proof {
            lemma_cut_rem_bound(rem as int, m as int, UNIT as int);
        }
        let pos = cut_fixed(rem, UNIT as i128);
        let c = self.key_color_list.get_buffered(pos);
        proof {
            lemma_palette_color_wf(old(self).keys(), pos as int);
        }
        c
    }
}

/// Every color of a palette timeline is well formed.
proof fn lemma_palette_color_wf(keys: Seq<Keyframe<Color>>, position: int)
    requires
        crate::interpolation_list::chain_wf(keys),
    ensures
        color_at(keys, position).wf(),
{
    if position <= keys[0].sum_distance {
    } else if position >= keys.last().sum_distance {
        assert(keys.last() == keys[keys.len() - 1]);
    } else {
        lemma_walk_wf(keys, position, keys.len() - 1);
    }
}

proof fn lemma_walk_wf(keys: Seq<Keyframe<Color>>, position: int, j: int)
    requires
        crate::interpolation_list::chain_wf(keys),
        0 <= j < keys.len(),
    ensures
        crate::interpolation_list::walk(keys, position, j).wf(),
    decreases j,
{
    if j > 0 {
        lemma_walk_wf(keys, position, j - 1);
    }
}

impl ColorPalette for RepeatingColorPalette {
    closed spec fn inv(&self) -> bool {
        self.wf()
    }

    open spec fn gives_color(&self, index: int, c: Color) -> bool {
        c == color_at(self.keys(), repeating_position(index, self.keys().last().sum_distance as int))
    }

    /// Calibration leaves the palette as it is.
    open spec fn max_set(&self, max: int, next: Self) -> bool {
        next == *self
    }

    /// Reading samples leaves the palette as it is.
    open spec fn prepared(&self, samples: Seq<i64>, next: Self) -> bool {
        next == *self
    }

    fn set_max(&mut self, max: u64) {
    }

    fn prepare<C>(&mut self, fractal: &FractalRepresentation<C>) {
    }

    fn get_color(&mut self, index: i64) -> (r: Color) {
        RepeatingColorPalette::get_color(self, index)
    }
}

/// Stretches the key colors over the iteration range given by `set_max`.
pub struct ScalingColorPalette {
    key_color_list: InterpolationList<Color>,
    scale: u64,
}

impl ScalingColorPalette {
    pub closed spec fn wf(self) -> bool {
        self.key_color_list.wf()
    }

    pub closed spec fn keys(self) -> Seq<Keyframe<Color>> {
        self.key_color_list@
    }

    pub closed spec fn scale(self) -> int {
        self.scale as int
    }

    pub fn new(interpolation: Interpolation, key_colors: Vec<KeyColor>) -> (r: Self)
        requires
            key_colors.len() >= 1,
            forall|j: int| 0 <= j < key_colors.len() ==> (#[trigger] key_colors@[j]).color.wf(),
            interpolation.wf(),
        ensures
            r.wf(),
            chain_of_key_colors(r.keys(), key_colors@, interpolation),
            r.scale() == 1,
    {
        ScalingColorPalette { key_color_list: get_list_from_key_color(key_colors, interpolation), scale: 1 }
    }

    pub fn set_max(&mut self, max: u64)
        requires
            old(self).wf(),
        ensures
            final(self).wf(),
            final(self).keys() == old(self).keys(),
            final(self).scale() == max,
    {
        self.scale = max;
    }

    /// The color at `index` (in millionths) scaled by the configured maximum.
    pub fn get_color(&mut self, index: i64) -> (r: Color)
        requires
            old(self).wf(),
        ensures
            final(self).wf(),
            final(self).keys() == old(self).keys(),
            final(self).scale() == old(self).scale(),
            r == color_at(old(self).keys(), scaling_position(index as int, old(self).scale())),
            r.wf(),
    {
        proof {
            self.key_color_list.lemma_wf_chain();
        }
        let pos: u64 = if self.scale == 0 {
            if index > 0 {
                u64::MAX
            } else {
                0
            }
        } else {
            let x = index as i128 * 10_000;
            assert(0 <= self.scale * 1_000_000 <= 0x1_0000_0000_0000_0000 * 1_000_000) by (nonlinear_arith)
                requires
                    0 <= self.scale <= 0x1_0000_0000_0000_0000,
            ;
            let unit = self.scale as i128 * (UNIT as i128);
            assert(x / unit <= u64::MAX) by (nonlinear_arith)
                requires
                    x == index * 10_000,
                    index < 0x8000_0000_0000_0000,
                    unit >= 1_000_000,
            ;
            cut_fixed(x, unit)
        };
        let c = self.key_color_list.get_buffered(pos);
        proof {
            lemma_palette_color_wf(old(self).keys(), pos as int);
        }
        c
    }
}

impl ColorPalette for ScalingColorPalette {
    closed spec fn inv(&self) -> bool {
        self.wf()
    }

    open spec fn gives_color(&self, index: int, c: Color) -> bool {
        c == color_at(self.keys(), scaling_position(index, self.scale()))
    }

    /// Calibration sets the scale to `max`.
    open spec fn max_set(&self, max: int, next: Self) -> bool {
        &&& next.keys() == self.keys()
        &&& next.scale() == max
    }

    /// Reading samples leaves the palette as it is.
    open spec fn prepared(&self, samples: Seq<i64>, next: Self) -> bool {
        next == *self
    }

    fn set_max(&mut self, max: u64) {
        ScalingColorPalette::set_max(self, max)
    }

    fn prepare<C>(&mut self, fractal: &FractalRepresentation<C>) {
    }

    fn get_color(&mut self, index: i64) -> (r: Color) {
        ScalingColorPalette::get_color(self, index)
    }
}

/// Log-spaced banding: the caller gives the logarithm
/// `log_base(index * PRECISION_FACTOR / span + 1)`, which takes floating point.
pub struct LogarithmicColorPalette {
    key_color_list: InterpolationList<Color>,
    base: i64,
}

impl LogarithmicColorPalette {
    pub closed spec fn wf(self) -> bool {
        self.key_color_list.wf()
    }

    pub closed spec fn keys(self) -> Seq<Keyframe<Color>> {
        self.key_color_list@
    }

    pub closed spec fn spec_base(self) -> int {
        self.base as int
    }

    /// A palette with the logarithm base `base` (in millionths).
    pub fn new(interpolation: Interpolation, key_colors: Vec<KeyColor>, base: i64) -> (r: Self)
        requires
            key_colors.len() >= 1,
            forall|j: int| 0 <= j < key_colors.len() ==> (#[trigger] key_colors@[j]).color.wf(),
            interpolation.wf(),
        ensures
            r.wf(),
            chain_of_key_colors(r.keys(), key_colors@, interpolation),
            r.spec_base() == base,
    {
        LogarithmicColorPalette { key_color_list: get_list_from_key_color(key_colors, interpolation), base }
    }

    /// The logarithm base, in millionths.
    pub fn base(&self) -> (r: i64)
        ensures
            r == self.spec_base(),
    {
        self.base
    }

    /// The last timeline position.
    pub fn span(&self) -> (r: u64)
        requires
            self.wf(),
        ensures
            r == self.keys().last().sum_distance,
    {
        self.key_color_list.get_max_position()
    }

    /// The color for the logarithm `factor` (in millionths): its fractional
    /// part spread over the span of the palette.
    pub fn get_color(&mut self, factor: i64) -> (r: Color)
        requires
            old(self).wf(),
        ensures
            final(self).wf(),
            final(self).keys() == old(self).keys(),
            final(self).spec_base() == old(self).spec_base(),
            r == color_at(old(self).keys(), logarithmic_position(factor as int, old(self).keys().last().sum_distance as int)),
            r.wf(),
    {
        proof {
            self.key_color_list.lemma_wf_chain();
        }
        let n = self.key_color_list.get_max_position() as i128;
        let frac = rem_fixed(factor as i128, UNIT as i128);
        assert(-1_000_000 * 0x1_0000_0000_0000_0000 <= frac * n <= 1_000_000 * 0x1_0000_0000_0000_0000) by (nonlinear_arith)
            requires
                -1_000_000 < frac < 1_000_000,
                0 <= n <= 0x1_0000_0000_0000_0000,
        ;
        let x = frac * n;
        assert(x <= 1_000_000 * n) by (nonlinear_arith)
            requires
                -1_000_000 < frac < 1_000_000,
                x == frac * n,
                n >= 0,
        ;
        assert(x / 1_000_000 <= u64::MAX) by (nonlinear_arith)
            requires
                x <= 1_000_000 * n,
                n <= u64::MAX,
        ;
        let pos = cut_fixed(x, UNIT as i128);
        let c = self.key_color_list.get_buffered(pos);
        proof {
            lemma_palette_color_wf(old(self).keys(), pos as int);
        }
        c
    }
}

/// A nonlinear warp of the index: the caller gives
/// `((index / max) ^ exponent * span) ^ 1.5`, which takes floating point.
pub struct ExponentialColorPalette {
    key_color_list: InterpolationList<Color>,
    exponent: i64,
    max_iter: u64,
}

impl ExponentialColorPalette {
    pub closed spec fn wf(self) -> bool {
        self.key_color_list.wf()
    }

    pub closed spec fn keys(self) -> Seq<Keyframe<Color>> {
        self.key_color_list@
    }

    pub closed spec fn spec_exponent(self) -> int {
        self.exponent as int
    }

    pub closed spec fn spec_max_iter(self) -> int {
        self.max_iter as int
    }

    /// A palette with the exponent `exponent` (in millionths).
    pub fn new(interpolation: Interpolation, key_colors: Vec<KeyColor>, exponent: i64) -> (r: Self)
        requires
            key_colors.len() >= 1,
            forall|j: int| 0 <= j < key_colors.len() ==> (#[trigger] key_colors@[j]).color.wf(),
            interpolation.wf(),
        ensures
            r.wf(),
            chain_of_key_colors(r.keys(), key_colors@, interpolation),
            r.spec_exponent() == exponent,
            r.spec_max_iter() == 0,
    {
        ExponentialColorPalette {
            key_color_list: get_list_from_key_color(key_colors, interpolation),
            exponent,
            max_iter: 0,
        }
    }

    pub fn exponent(&self) -> (r: i64)
        ensures
            r == self.spec_exponent(),
    {
        self.exponent
    }

    pub fn max_iter(&self) -> (r: u64)
        ensures
            r == self.spec_max_iter(),
    {
        self.max_iter
    }

    pub fn set_max(&mut self, max: u64)
        requires
            old(self).wf(),
        ensures
            final(self).wf(),
            final(self).keys() == old(self).keys(),
            final(self).spec_exponent() == old(self).spec_exponent(),
            final(self).spec_max_iter() == max,
    {
        self.max_iter = max;
    }

    /// The last timeline position.
    pub fn span(&self) -> (r: u64)
        requires
            self.wf(),
        ensures
            r == self.keys().last().sum_distance,
    {
        self.key_color_list.get_max_position()
    }

    /// The color for the warped index `warped` (in millionths), wrapped
    /// past the span of the palette.
    pub fn get_color(&mut self, warped: i64) -> (r: Color)
        requires
            old(self).wf(),
        ensures
            final(self).wf(),
            final(self).keys() == old(self).keys(),
            final(self).spec_exponent() == old(self).spec_exponent(),
            final(self).spec_max_iter() == old(self).spec_max_iter(),
            r == color_at(old(self).keys(), exponential_position(warped as int, old(self).keys().last().sum_distance as int)),
            r.wf(),
    {
        proof {
            self.key_color_list.lemma_wf_chain();
        }
        let n = self.key_color_list.get_max_position() as i128;
        let m = (n + 1) * (UNIT as i128);
        let rem = rem_fixed(warped as i128, m);
        proof {
            lemma_cut_rem_bound(rem as int, m as int, UNIT as int);
        }
        let pos = cut_fixed(rem, UNIT as i128);
        let c = self.key_color_list.get_buffered(pos);
        proof {
            lemma_palette_color_wf(old(self).keys(), pos as int);
        }
        c
    }
}

/// The histogram bucket of a dwell value: cut to an unsigned integer.
pub open spec fn bucket(v: int) -> int {
    cut(v, UNIT as int)
}

/// How many values of `s` fall in bucket `b`.
pub open spec fn count_in(s: Seq<i64>, b: int) -> nat
    decreases s.len(),
{
    if s.len() == 0 {
        0
    } else {
        count_in(s.drop_last(), b) + if bucket(s.last() as int) == b {
            1nat
        } else {
            0nat
        }
    }
}

/// The sum of the first `n` entries of `s`.
pub open spec fn prefix_sum(s: Seq<u64>, n: int) -> int
    decreases n,
{
    if n <= 0 {
        0
    } else {
        prefix_sum(s, n - 1) + s[n - 1]
    }
}

/// The timeline position of the histogram palette: the share of samples below
/// `iterations` (interpolating within its bucket), times `100 * PRECISION_FACTOR`;
/// past the table, the full share. Only defined where some sample was counted.
pub open spec fn histogram_position(cumulative: Seq<u64>, delta: Seq<u64>, total: int, iterations: int) -> int {
    let i = bucket(iterations);
    if i >= delta.len() {
        10_000
    } else {
        cut(
            (cumulative[i] * UNIT + trunc_rem(iterations, UNIT as int) * delta[i]) * 10_000,
            total * UNIT,
        )
    }
}

proof fn lemma_prefix_sum_mono(s: Seq<u64>, i: int, j: int)
    requires
        0 <= i <= j <= s.len(),
    ensures
        prefix_sum(s, i) <= prefix_sum(s, j),
    decreases j - i,
{
    if i < j {
        lemma_prefix_sum_mono(s, i, j - 1);
    }
}

proof fn lemma_prefix_sum_update(s: Seq<u64>, b: int, v: u64, n: int)
    requires
        0 <= b < s.len(),
        0 <= n <= s.len(),
    ensures
        prefix_sum(s.update(b, v), n) == prefix_sum(s, n) + if b < n {
            v - s[b]
        } else {
            0
        },
    decreases n,
{
    if n > 0 {
        lemma_prefix_sum_update(s, b, v, n - 1);
    }
}

proof fn lemma_prefix_sum_zeros(s: Seq<u64>, n: int)
    requires
        0 <= n <= s.len(),
        forall|k: int| 0 <= k < s.len() ==> s[k] == 0,
    ensures
        prefix_sum(s, n) == 0,
    decreases n,
{
    if n > 0 {
        lemma_prefix_sum_zeros(s, n - 1);
    }
}

/// `next` holds the tables of `samples` over `max_iter` buckets, with the
/// timeline `keys`.
pub open spec fn histogram_of(keys: Seq<Keyframe<Color>>, max_iter: int, samples: Seq<i64>, next: HistogramColorPalette) -> bool {
    &&& next.wf()
    &&& next.keys() == keys
    &&& next.spec_max_iter() == max_iter
    &&& next.spec_delta().len() == max_iter
    &&& forall|k: int| 0 <= k < max_iter ==> #[trigger] next.spec_delta()[k] == count_in(samples, k)
    &&& forall|k: int| 0 <= k < max_iter ==> #[trigger] next.spec_cumulative()[k] == prefix_sum(next.spec_delta(), k)
    &&& next.spec_total() == prefix_sum(next.spec_delta(), max_iter)
}

/// Equalizes colors by the frequency of dwell values over a whole computation.
pub struct HistogramColorPalette {
    key_color_list: InterpolationList<Color>,
    max_iter: u64,
    total: u64,
    cumulative_iterations: Vec<u64>,
    delta_iterations: Vec<u64>,
}

/// At most this many samples are counted.
pub const MAX_TOTAL: u64 = 0x4000_0000_0000_0000;

impl HistogramColorPalette {
    pub closed spec fn wf(self) -> bool {
        &&& self.key_color_list.wf()
        &&& self.cumulative_iterations.len() == self.delta_iterations.len()
        &&& forall|i: int| 0 <= i < self.delta_iterations.len() ==>
            #[trigger] self.cumulative_iterations@[i] == prefix_sum(self.delta_iterations@, i)
        &&& self.total == prefix_sum(self.delta_iterations@, self.delta_iterations.len() as int)
        &&& self.total <= MAX_TOTAL
    }

    pub closed spec fn keys(self) -> Seq<Keyframe<Color>> {
        self.key_color_list@
    }

    pub closed spec fn spec_max_iter(self) -> int {
        self.max_iter as int
    }

    /// Per bucket, the count of samples below it.
    pub closed spec fn spec_cumulative(self) -> Seq<u64> {
        self.cumulative_iterations@
    }

    /// Per bucket, the count of samples in it.
    pub closed spec fn spec_delta(self) -> Seq<u64> {
        self.delta_iterations@
    }

    pub closed spec fn spec_total(self) -> int {
        self.total as int
    }

    pub fn new(interpolation: Interpolation, key_colors: Vec<KeyColor>) -> (r: Self)
        requires
            key_colors.len() >= 1,
            forall|j: int| 0 <= j < key_colors.len() ==> (#[trigger] key_colors@[j]).color.wf(),
            interpolation.wf(),
        ensures
            r.wf(),
            chain_of_key_colors(r.keys(), key_colors@, interpolation),
            r.spec_max_iter() == 0,
            r.spec_total() == 0,
            r.spec_delta().len() == 0,
    {
        HistogramColorPalette {
            key_color_list: get_list_from_key_color(key_colors, interpolation),
            max_iter: 0,
            total: 0,
            cumulative_iterations: Vec::new(),
            delta_iterations: Vec::new(),
        }
    }

    pub fn set_max(&mut self, max: u64)
        requires
            old(self).wf(),
        ensures
            final(self).wf(),
            final(self).keys() == old(self).keys(),
            final(self).spec_delta() == old(self).spec_delta(),
            final(self).spec_cumulative() == old(self).spec_cumulative(),
            final(self).spec_total() == old(self).spec_total(),
            final(self).spec_max_iter() == max,
    {
        self.max_iter = max;
    }

    pub fn total(&self) -> (r: u64)
        ensures
            r == self.spec_total(),
    {
        self.total
    }

    pub fn cumulative_iterations(&self) -> (r: &Vec<u64>)
        ensures
            r@ == self.spec_cumulative(),
    {
        &self.cumulative_iterations
    }

    pub fn delta_iterations(&self) -> (r: &Vec<u64>)
        ensures
            r@ == self.spec_delta(),
    {
        &self.delta_iterations
    }

    /// Counts every sample of `fractal` into the buckets `[0, max_iter)`, and
    /// builds the cumulative counts and the total.
    pub fn prepare<C>(&mut self, fractal: &FractalRepresentation<C>)
        requires
            old(self).wf(),
            fractal.wf(),
        ensures
            histogram_of(old(self).keys(), old(self).spec_max_iter(), crate::fractal::samples_of(fractal.points@), *final(self)),
            final(self).wf(),
            final(self).keys() == old(self).keys(),
            final(self).spec_max_iter() == old(self).spec_max_iter(),
            final(self).spec_delta().len() == old(self).spec_max_iter(),
            forall|k: int| 0 <= k < old(self).spec_max_iter() ==>
                #[trigger] final(self).spec_delta()[k] == count_in(crate::fractal::samples_of(fractal.points@), k),
            forall|k: int| 0 <= k < old(self).spec_max_iter() ==>
                #[trigger] final(self).spec_cumulative()[k] == prefix_sum(final(self).spec_delta(), k),
            final(self).spec_total() == prefix_sum(final(self).spec_delta(), old(self).spec_max_iter()),
    {
        let max_iter = self.max_iter;
        let mut delta: Vec<u64> = Vec::new();
        let mut i: u64 = 0;
        while i < max_iter
            invariant
                i <= max_iter,
                delta.len() == i,
                forall|k: int| 0 <= k < delta.len() ==> #[trigger] delta@[k] == 0,
            decreases max_iter - i,
        {
            delta.push(0);
            i = i + 1;
        }
        proof {
            lemma_prefix_sum_zeros(delta@, delta.len() as int);
        }
        let mut total: u64 = 0;
        let mut pi: usize = 0;
        while pi < fractal.points.len()
            invariant
                fractal.wf(),
                delta.len() == max_iter,
                0 <= pi <= fractal.points.len(),
                forall|k: int| 0 <= k < delta.len() ==>
                    #[trigger] delta@[k] == count_in(crate::fractal::samples_of(fractal.points@.subrange(0, pi as int)), k),
                total == prefix_sum(delta@, delta.len() as int),
                total <= 4 * pi,
            decreases fractal.points.len() - pi,
        {
            let point = &fractal.points[pi];
            let ghost before = crate::fractal::samples_of(fractal.points@.subrange(0, pi as int));
            let mut si: usize = 0;
            while si < point.iterations.len()
                invariant
                    fractal.wf(),
                    delta.len() == max_iter,
                    pi < fractal.points.len(),
                    *point == fractal.points@[pi as int],
                    point.iterations.len() <= 4,
                    0 <= si <= point.iterations.len(),
                    forall|k: int| 0 <= k < delta.len() ==>
                        #[trigger] delta@[k] == count_in(before + point.iterations@.subrange(0, si as int), k),
                    total == prefix_sum(delta@, delta.len() as int),
                    total <= 4 * pi + si,
                decreases point.iterations.len() - si,
            {
                let v = point.iterations[si];
                let b: u64 = if v <= 0 {
                    0
                } else {
                    (v / UNIT) as u64
                };
                let ghost seen = before + point.iterations@.subrange(0, si as int);
                let ghost next = before + point.iterations@.subrange(0, si as int + 1);
                proof {
                    assert(next.drop_last() =~= seen);
                    assert(next.last() == v);
                }
                if b < max_iter {
                    proof {
                        lemma_prefix_sum_mono(delta@, b as int + 1, delta.len() as int);
                        lemma_prefix_sum_mono(delta@, 0, b as int);
                    }
                    let d = delta[b as usize];
                    assert(prefix_sum(delta@, b as int + 1) == prefix_sum(delta@, b as int) + delta@[b as int]);
                    assert(d <= total);
                    assert(total < 0x4000_0000_0000_0000) by (nonlinear_arith)
                        requires
                            total <= 4 * pi + 4,
                            pi < 0x0800_0000_0000_0000,
                    ;
                    proof {
                        lemma_prefix_sum_update(delta@, b as int, (d + 1) as u64, delta.len() as int);
                    }
                    delta.set(b as usize, d + 1);
                    total = total + 1;
                }
                si = si + 1;
            }
            proof {
                let s = fractal.points@.subrange(0, pi as int + 1);
                assert(s.drop_last() =~= fractal.points@.subrange(0, pi as int));
                assert(s.last() == *point);
                assert(point.iterations@.subrange(0, si as int) =~= point.iterations@);
            }
            pi = pi + 1;
        }
        assert(fractal.points@.subrange(0, fractal.points.len() as int) =~= fractal.points@);
        let mut cumulative: Vec<u64> = Vec::new();
        let mut running: u64 = 0;
        let mut k: usize = 0;
        while k < delta.len()
            invariant
                0 <= k <= delta.len(),
                cumulative.len() == k,
                running == prefix_sum(delta@, k as int),
                total == prefix_sum(delta@, delta.len() as int),
                total <= MAX_TOTAL,
                forall|m: int| 0 <= m < k ==> #[trigger] cumulative@[m] == prefix_sum(delta@, m),
            decreases delta.len() - k,
        {
            proof {
                lemma_prefix_sum_mono(delta@, k as int + 1, delta.len() as int);
            }
            cumulative.push(running);
            running = running + delta[k];
            k = k + 1;
        }
        self.cumulative_iterations = cumulative;
        self.delta_iterations = delta;
        self.total = total;
    }

    /// The color of `iterations`: the timeline at the share of samples below it.
    /// Some sample must have been counted by `prepare`.
    pub fn get_color(&mut self, iterations: i64) -> (r: Color)
        requires
            old(self).wf(),
            old(self).spec_total() > 0,
        ensures
            final(self).wf(),
            final(self).keys() == old(self).keys(),
            final(self).spec_delta() == old(self).spec_delta(),
            final(self).spec_cumulative() == old(self).spec_cumulative(),
            final(self).spec_total() == old(self).spec_total(),
            final(self).spec_max_iter() == old(self).spec_max_iter(),
            r == color_at(
                old(self).keys(),
                histogram_position(old(self).spec_cumulative(), old(self).spec_delta(), old(self).spec_total(), iterations as int),
            ),
            r.wf(),
    {
        proof {
            self.key_color_list.lemma_wf_chain();
        }
        let i: u64 = if iterations <= 0 {
            0
        } else {
            (iterations / UNIT) as u64
        };
        let pos: u64 = if i >= self.delta_iterations.len() as u64 {
            10_000
        } else {
            let cum = self.cumulative_iterations[i as usize] as i128;
            let d = self.delta_iterations[i as usize] as i128;
            let frac = rem_fixed(iterations as i128, UNIT as i128);
            let t = self.total as i128;
            proof {
                lemma_prefix_sum_mono(self.delta_iterations@, i as int + 1, self.delta_iterations.len() as int);
            }
            assert(cum + d <= t);
            assert(0 <= cum * 1_000_000 <= 0x4000_0000_0000_0000 * 1_000_000) by (nonlinear_arith)
                requires
                    0 <= cum <= 0x4000_0000_0000_0000,
            ;
            assert(-1_000_000 * d <= frac * d <= 1_000_000 * d) by (nonlinear_arith)
                requires
                    -1_000_000 < frac < 1_000_000,
                    0 <= d,
            ;
            assert(d * 1_000_000 <= 0x4000_0000_0000_0000 * 1_000_000) by (nonlinear_arith)
                requires
                    0 <= d <= 0x4000_0000_0000_0000,
            ;
            let num = (cum * (UNIT as i128) + frac * d) * 10_000;
            let unit = t * (UNIT as i128);
            assert(num <= (t * 1_000_000) * 10_000) by (nonlinear_arith)
                requires
                    num == (cum * 1_000_000 + frac * d) * 10_000,
                    frac * d <= 1_000_000 * d,
                    cum + d <= t,
            ;
            assert(num / unit <= 10_000) by (nonlinear_arith)
                requires
                    num <= unit * 10_000,
                    unit > 0,
            ;
            cut_fixed(num, unit)
        };
        let c = self.key_color_list.get_buffered(pos);
        proof {
            lemma_palette_color_wf(old(self).keys(), pos as int);
        }
        c
    }
}

/// After `prepare` the counts per bucket add up to the total, and the
/// cumulative counts never decrease.
pub proof fn lemma_histogram_totals(palette: HistogramColorPalette)
    requires
        palette.wf(),
    ensures
        palette.spec_total() == prefix_sum(palette.spec_delta(), palette.spec_delta().len() as int),
        palette.spec_cumulative().len() == palette.spec_delta().len(),
        forall|i: int, j: int| 0 <= i <= j < palette.spec_cumulative().len() ==>
            palette.spec_cumulative()[i] <= palette.spec_cumulative()[j],
{
    assert forall|i: int, j: int| 0 <= i <= j < palette.spec_cumulative().len() implies
        palette.spec_cumulative()[i] <= palette.spec_cumulative()[j] by {
        lemma_prefix_sum_mono(palette.delta_iterations@, i, j);
        assert(palette.cumulative_iterations@[i] == prefix_sum(palette.delta_iterations@, i));
        assert(palette.cumulative_iterations@[j] == prefix_sum(palette.delta_iterations@, j));
    }
}

impl ColorPalette for HistogramColorPalette {
    closed spec fn inv(&self) -> bool {
        self.wf()
    }

    open spec fn gives_color(&self, index: int, c: Color) -> bool {
        c == color_at(
            self.keys(),
            histogram_position(self.spec_cumulative(), self.spec_delta(), self.spec_total(), index),
        )
    }

    /// A lookup needs at least one counted sample.
    open spec fn accepts(&self, index: int) -> bool {
        self.spec_total() > 0
    }

    /// Calibration sets the bucket count to `max`.
    open spec fn max_set(&self, max: int, next: Self) -> bool {
        &&& next.keys() == self.keys()
        &&& next.spec_delta() == self.spec_delta()
        &&& next.spec_cumulative() == self.spec_cumulative()
        &&& next.spec_total() == self.spec_total()
        &&& next.spec_max_iter() == max
    }

    /// Reading samples builds the tables from them.
    open spec fn prepared(&self, samples: Seq<i64>, next: Self) -> bool {
        histogram_of(self.keys(), self.spec_max_iter(), samples, next)
    }

    fn set_max(&mut self, max: u64) {
        HistogramColorPalette::set_max(self, max)
    }

    fn prepare<C>(&mut self, fractal: &FractalRepresentation<C>) {
        HistogramColorPalette::prepare(self, fractal)
    }

    fn get_color(&mut self, index: i64) -> (r: Color) {
        HistogramColorPalette::get_color(self, index)
    }
}

} // verus!
