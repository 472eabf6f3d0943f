//! Interpolation algebra over fixed-point values.
//!
//! Ratios are integers in millionths: `UNIT` stands for the real number 1.
use vstd::prelude::*;

verus! {

/// The fixed-point unit: a ratio (or channel, or dwell value) of `UNIT` is 1.0.
pub const UNIT: i64 = 1_000_000;

/// How a segment between two values is filled.
#[derive(Clone, Copy, Debug, PartialEq, Eq, Structural)]
pub enum Interpolation {
    LINEAR,
    CUBIC,
    NEAREST,
    /// Easing with the factor `k = e^bias - 1`, in millionths.
    /// The ratio `r` is first mapped to `(k*r + r) / (k*r + 1)`.
    EASING(i64),
}

/// `x / d` rounded toward zero, for a positive `d`.
pub open spec fn trunc_div(x: int, d: int) -> int {
    if x >= 0 {
        x / d
    } else {
        -((-x) / d)
    }
}

/// The part `num / den` of the distance `d`, rounded toward zero.
pub open spec fn part_of(d: int, num: int, den: int) -> int {
    trunc_div(d * num, den)
}

/// The eased ratio `(k*r + r) / (k*r + 1)` in millionths, rounded down.
pub open spec fn eased_ratio(k: int, r: int) -> int {
    (r * UNIT * (k + UNIT)) / (k * r + UNIT * UNIT)
}

/// The weight of the far end in the cubic `2*d*r^3 - 3*d*r^2` (with `d = a - b`),
/// over the denominator `UNIT^3`: `r^2 * (3 - 2*r)`.
pub open spec fn cubic_weight(r: int) -> int {
    r * r * (3 * UNIT - 2 * r)
}

impl Interpolation {
    /// An easing factor is above -1 (it is `e^bias - 1`).
    pub open spec fn wf(self) -> bool {
        match self {
            Interpolation::EASING(k) => k > -UNIT,
            _ => true,
        }
    }

    /// The ratio that a value-level interpolation applies, after easing.
    pub open spec fn effective_ratio(self, r: int) -> int {
        match self {
            Interpolation::EASING(k) => eased_ratio(k as int, r),
            _ => r,
        }
    }

    /// Interpolating the integer `a` toward `b` at the ratio `r` (in millionths).
    pub open spec fn spec_scalar(self, r: int, a: int, b: int) -> int {
        match self {
            Interpolation::LINEAR => a + part_of(b - a, r, UNIT as int),
            Interpolation::CUBIC => a + part_of(b - a, cubic_weight(r), UNIT * UNIT * UNIT),
            Interpolation::NEAREST => if r < UNIT / 2 { a } else { b },
            Interpolation::EASING(k) => a + part_of(b - a, eased_ratio(k as int, r), UNIT as int),
        }
    }

    /// Interpolating a flag: the nearer end after easing.
    pub open spec fn spec_flag(self, r: int, a: bool, b: bool) -> bool {
        if self.effective_ratio(r) < UNIT / 2 {
            a
        } else {
            b
        }
    }

    /// An interpolator for this mode, at ratio 0.
    pub fn interpolator(self) -> (r: Interpolator)
        ensures
            r.interpolation == self,
            r.ratio == 0,
    {
        Interpolator::new(self)
    }

    /// Interpolates `first` toward `second` at `ratio` (in millionths).
    pub fn interpolate<T: Interpolatable>(self, first: &T, ratio: i64, second: &T) -> (r: T)
        requires
            self.wf(),
            0 <= ratio <= UNIT,
        ensures
            r == T::spec_interpolate(self, ratio as int, *first, *second),
    {
        let mut interpolator = self.interpolator();
        interpolator.ratio = ratio;
        interpolator.interpolate(first, second)
    }
}

/// A mode together with the ratio at which it is applied.
pub struct Interpolator {
    pub interpolation: Interpolation,
    /// In millionths.
    pub ratio: i64,
}

impl Interpolator {
    fn new(interpolation: Interpolation) -> (r: Interpolator)
        ensures
            r.interpolation == interpolation,
            r.ratio == 0,
    {
        Interpolator { interpolation, ratio: 0 }
    }

    pub open spec fn wf(&self) -> bool {
        self.interpolation.wf() && 0 <= self.ratio <= UNIT
    }

    /// Interpolates `this` toward `other` with this mode and ratio.
    pub fn interpolate<T: Interpolatable>(&self, this: &T, other: &T) -> (r: T)
        requires
            self.wf(),
        ensures
            r == T::spec_interpolate(self.interpolation, self.ratio as int, *this, *other),
    {
        this.interpolate(self, other)
    }

    /// Interpolates two integers of magnitude at most `2^64`.
    pub fn interpolate_scalar(&self, a: i128, b: i128) -> (r: i128)
        requires
            self.wf(),
            -0x1_0000_0000_0000_0000 <= a <= 0x1_0000_0000_0000_0000,
            -0x1_0000_0000_0000_0000 <= b <= 0x1_0000_0000_0000_0000,
        ensures
            r == self.interpolation.spec_scalar(self.ratio as int, a as int, b as int),
            between(r as int, a as int, b as int),
    {
        let r = self.ratio as i128;
        let u = UNIT as i128;
        match self.interpolation {
            Interpolation::LINEAR => a + part(b - a, r, u),
            Interpolation::CUBIC => {
                proof {
                    lemma_cubic_weight_bounds(r as int);
                }
                assert(0 <= r * r <= 1_000_000_000_000) by (nonlinear_arith)
                    requires
                        0 <= r <= 1_000_000,
                ;
                assert(0 <= r * r * (3 * u - 2 * r) <= 1_000_000_000_000 * 3_000_000)
                    by (nonlinear_arith)
                    requires
                        0 <= r * r <= 1_000_000_000_000,
                        0 <= 3 * u - 2 * r <= 3_000_000,
                ;
                let w = r * r * (3 * u - 2 * r);
                a + part(b - a, w, u * u * u)
            },
            Interpolation::NEAREST => {
                if r < u / 2 {
                    a
                } else {
                    b
                }
            },
            Interpolation::EASING(k) => {
                let e = eased(k, self.ratio);
                a + part(b - a, e as i128, u)
            },
        }
    }

    /// Interpolates two flags: the nearer one after easing.
    pub fn interpolate_flag(&self, a: bool, b: bool) -> (r: bool)
        requires
            self.wf(),
        ensures
            r == self.interpolation.spec_flag(self.ratio as int, a, b),
    {
        let e = match self.interpolation {
            Interpolation::EASING(k) => eased(k, self.ratio),
            _ => self.ratio,
        };
        if e < UNIT / 2 {
            a
        } else {
            b
        }
    }
}

/// `x` lies between `a` and `b`, both included.
pub open spec fn between(x: int, a: int, b: int) -> bool {
    if a <= b {
        a <= x <= b
    } else {
        b <= x <= a
    }
}

proof fn lemma_cubic_weight_bounds(r: int)
    requires
        0 <= r <= UNIT,
    ensures
        0 <= cubic_weight(r) <= UNIT * UNIT * UNIT,
{
    assert(0 <= r * r <= UNIT * UNIT) by (nonlinear_arith)
        requires
            0 <= r <= UNIT,
    ;
    assert(UNIT <= 3 * UNIT - 2 * r <= 3 * UNIT);
    assert(0 <= r * r * (3 * UNIT - 2 * r)) by (nonlinear_arith)
        requires
            0 <= r * r,
            0 <= 3 * UNIT - 2 * r,
    ;
    // r^2 (3 - 2r) <= 1 on [0, 1]: 1 - 3r^2 + 2r^3 = (1 - r)^2 (1 + 2r) >= 0
    assert(UNIT * UNIT * UNIT - r * r * (3 * UNIT - 2 * r) == (UNIT - r) * (UNIT - r) * (UNIT + 2
        * r)) by (nonlinear_arith);
    assert(0 <= (UNIT - r) * (UNIT - r) * (UNIT + 2 * r)) by (nonlinear_arith)
        requires
            0 <= UNIT - r,
            0 <= UNIT + 2 * r,
    ;
}

proof fn lemma_part_between(d: int, num: int, den: int)
    requires
        0 <= num <= den,
        0 < den,
    ensures
        between(part_of(d, num, den), 0, d),
{
    if d >= 0 {
        assert(0 <= d * num <= d * den) by (nonlinear_arith)
            requires
                0 <= d,
                0 <= num <= den,
        ;
        assert(d * num / den <= d * den / den) by (nonlinear_arith)
            requires
                d * num <= d * den,
                0 < den,
        ;
        assert(d * den / den == d) by (nonlinear_arith)
            requires
                0 < den,
        ;
        assert(0 <= d * num / den) by (nonlinear_arith)
            requires
                0 <= d * num,
                0 < den,
        ;
    } else {
        let e = -d;
        assert(d * num == -(e * num)) by (nonlinear_arith)
            requires
                e == -d,
        ;
        assert(0 <= e * num <= e * den) by (nonlinear_arith)
            requires
                0 <= e,
                0 <= num <= den,
        ;
        assert(e * num / den <= e * den / den) by (nonlinear_arith)
            requires
                e * num <= e * den,
                0 < den,
        ;
        assert(e * den / den == e) by (nonlinear_arith)
            requires
                0 < den,
        ;
        assert(0 <= e * num / den) by (nonlinear_arith)
            requires
                0 <= e * num,
                0 < den,
        ;
    }
}

/// `d * num / den` rounded toward zero.
fn part(d: i128, num: i128, den: i128) -> (r: i128)
    requires
        -0x2_0000_0000_0000_0000 <= d <= 0x2_0000_0000_0000_0000,
        0 <= num <= den,
        0 < den <= 0x1000_0000_0000_0000,
    ensures
        r == part_of(d as int, num as int, den as int),
        between(r as int, 0, d as int),
{
    proof {
        lemma_part_between(d as int, num as int, den as int);
    }
    if d >= 0 {
        assert(0 <= d * num <= 0x2_0000_0000_0000_0000 * 0x1000_0000_0000_0000) by (nonlinear_arith)
            requires
                0 <= d <= 0x2_0000_0000_0000_0000,
                0 <= num <= 0x1000_0000_0000_0000,
        ;
        (d * num) / den
    } else {
        let e = -d;
        assert(0 <= e * num <= 0x2_0000_0000_0000_0000 * 0x1000_0000_0000_0000) by (nonlinear_arith)
            requires
                0 <= e <= 0x2_0000_0000_0000_0000,
                0 <= num <= 0x1000_0000_0000_0000,
        ;
        assert(d * num == -(e * num)) by (nonlinear_arith)
            requires
                e == -d,
        ;
        -((e * num) / den)
    }
}

proof fn lemma_eased_bounds(k: int, r: int)
    requires
        k > -UNIT,
        0 <= r <= UNIT,
    ensures
        k * r + UNIT * UNIT > 0,
        0 <= eased_ratio(k, r) <= UNIT,
{
    let den = k * r + UNIT * UNIT;
    let num = r * UNIT * (k + UNIT);
    if r > 0 {
        assert(k * r > -UNIT * r) by (nonlinear_arith)
            requires
                k > -UNIT,
                0 < r,
        ;
        assert(-UNIT * r >= -UNIT * UNIT) by (nonlinear_arith)
            requires
                r <= UNIT,
        ;
    }
    assert(den > 0);
    assert(num >= 0) by (nonlinear_arith)
        requires
            num == r * UNIT * (k + UNIT),
            r >= 0,
            k + UNIT > 0,
    ;
    assert(num <= UNIT * den) by (nonlinear_arith)
        requires
            num == r * UNIT * (k + UNIT),
            den == k * r + UNIT * UNIT,
            r <= UNIT,
    ;
    assert(num / den <= (UNIT as int) * den / den) by (nonlinear_arith)
        requires
            num <= UNIT * den,
            den > 0,
    ;
    assert((UNIT as int) * den / den == UNIT) by (nonlinear_arith)
        requires
            den > 0,
    ;
    assert(num / den >= 0) by (nonlinear_arith)
        requires
            num >= 0,
            den > 0,
    ;
}

/// The eased ratio, in millionths.
fn eased(k: i64, r: i64) -> (e: i64)
    requires
        k > -UNIT,
        0 <= r <= UNIT,
    ensures
        e == eased_ratio(k as int, r as int),
        0 <= e <= UNIT,
{
    proof {
        lemma_eased_bounds(k as int, r as int);
    }
    let k = k as i128;
    let r = r as i128;
    let u = UNIT as i128;
    assert(-0x8000_0000_0000_0000 * 1_000_000 <= k * r <= 0x8000_0000_0000_0000 * 1_000_000)
        by (nonlinear_arith)
        requires
            -0x8000_0000_0000_0000 <= k < 0x8000_0000_0000_0000,
            0 <= r <= 1_000_000,
    ;
    let den = k * r + u * u;
    let ku = k + u;
    assert(0 <= r * u <= 1_000_000_000_000) by (nonlinear_arith)
        requires
            0 <= r <= 1_000_000,
            u == 1_000_000,
    ;
    let ru = r * u;
    assert(0 <= ru * ku <= 1_000_000_000_000 * (0x8000_0000_0000_0000 + 1_000_000))
        by (nonlinear_arith)
        requires
            0 <= ru <= 1_000_000_000_000,
            0 < ku <= 0x8000_0000_0000_0000 + 1_000_000,
    ;
    let num = ru * ku;
    (num / den) as i64
}

/// A value with a defined interpolation rule.
pub trait Interpolatable: Sized + Copy {
    /// A value that interpolation may take as an end point.
    spec fn valid(&self) -> bool;

    /// The result of interpolating `a` toward `b` at ratio `r` (in millionths).
    spec fn spec_interpolate(mode: Interpolation, r: int, a: Self, b: Self) -> Self;

    fn interpolate(&self, interpolator: &Interpolator, other: &Self) -> (r: Self)
        requires
            interpolator.wf(),
        ensures
            r == Self::spec_interpolate(interpolator.interpolation, interpolator.ratio as int, *self, *other),
    ;

    /// At ratio 1 every mode reaches the far end.
    proof fn lemma_full_ratio(mode: Interpolation, a: Self, b: Self)
        requires
            mode.wf(),
            b.valid(),
        ensures
            Self::spec_interpolate(mode, UNIT as int, a, b) == b,
    ;
}

pub(crate) proof fn lemma_scalar_full_ratio(mode: Interpolation, a: int, b: int)
    requires
        mode.wf(),
    ensures
        mode.spec_scalar(UNIT as int, a, b) == b,
{
    let d = b - a;
    assert(d * UNIT / (UNIT as int) == d) by (nonlinear_arith);
    assert((-d) * UNIT / (UNIT as int) == -d) by (nonlinear_arith);
    assert(d * UNIT == -((-d) * UNIT)) by (nonlinear_arith);
    match mode {
        Interpolation::CUBIC => {
            assert(cubic_weight(UNIT as int) == UNIT * UNIT * UNIT);
            let c = UNIT * UNIT * UNIT;
            assert(d * c / c == d) by (nonlinear_arith)
                requires
                    c > 0,
            ;
            assert((-d) * c / c == -d) by (nonlinear_arith)
                requires
                    c > 0,
            ;
            assert(d * c == -((-d) * c)) by (nonlinear_arith);
        },
        Interpolation::EASING(k) => {
            let den = k * UNIT + UNIT * UNIT;
            assert(UNIT * UNIT * (k + UNIT) == UNIT * den) by (nonlinear_arith)
                requires
                    den == k * UNIT + UNIT * UNIT,
            ;
            assert(den > 0) by (nonlinear_arith)
                requires
                    k > -UNIT,
                    den == k * UNIT + UNIT * UNIT,
            ;
            assert((UNIT as int) * den / den == UNIT) by (nonlinear_arith)
                requires
                    den > 0,
            ;
            assert(eased_ratio(k as int, UNIT as int) == UNIT);
        },
        _ => {},
    }
}

impl Interpolatable for i64 {
    open spec fn valid(&self) -> bool {
        true
    }

    open spec fn spec_interpolate(mode: Interpolation, r: int, a: i64, b: i64) -> i64 {
        mode.spec_scalar(r, a as int, b as int) as i64
    }

    fn interpolate(&self, interpolator: &Interpolator, other: &i64) -> (r: i64) {
        interpolator.interpolate_scalar(*self as i128, *other as i128) as i64
    }

    proof fn lemma_full_ratio(mode: Interpolation, a: i64, b: i64) {
        lemma_scalar_full_ratio(mode, a as int, b as int);
    }
}

impl Interpolatable for u64 {
    open spec fn valid(&self) -> bool {
        true
    }

    open spec fn spec_interpolate(mode: Interpolation, r: int, a: u64, b: u64) -> u64 {
        mode.spec_scalar(r, a as int, b as int) as u64
    }

    fn interpolate(&self, interpolator: &Interpolator, other: &u64) -> (r: u64) {
        interpolator.interpolate_scalar(*self as i128, *other as i128) as u64
    }

    proof fn lemma_full_ratio(mode: Interpolation, a: u64, b: u64) {
        lemma_scalar_full_ratio(mode, a as int, b as int);
    }
}

impl Interpolatable for bool {
    open spec fn valid(&self) -> bool {
        true
    }

    open spec fn spec_interpolate(mode: Interpolation, r: int, a: bool, b: bool) -> bool {
        mode.spec_flag(r, a, b)
    }

    fn interpolate(&self, interpolator: &Interpolator, other: &bool) -> (r: bool) {
        interpolator.interpolate_flag(*self, *other)
    }

    proof fn lemma_full_ratio(mode: Interpolation, a: bool, b: bool) {
        if let Interpolation::EASING(k) = mode {
            lemma_scalar_full_ratio(mode, 0, 1);
            lemma_eased_bounds(k as int, UNIT as int);
            let den = k * UNIT + UNIT * UNIT;
            assert(UNIT * UNIT * (k + UNIT) == UNIT * den) by (nonlinear_arith)
                requires
                    den == k * UNIT + UNIT * UNIT,
            ;
            assert((UNIT as int) * den / den == UNIT) by (nonlinear_arith)
                requires
                    den > 0,
            ;
        }
    }
}

/// The local ratio of `position` between the locations `left` and `right`, in
/// millionths (rounded down); one half where the two locations coincide.
pub open spec fn local_ratio(position: int, left: int, right: int) -> int {
    if left == right {
        UNIT / 2
    } else {
        (position - left) * UNIT / (right - left)
    }
}

/// A value tagged with its location, interpolated against another such value
/// by rescaling an absolute position into the local range of the two.
#[derive(Clone, Copy, Debug)]
pub struct InterpolatableLocation<T> {
    pub value: T,
    pub location: u64,
}

impl<T: Interpolatable> InterpolatableLocation<T> {
    pub fn new(value: T, location: u64) -> (r: InterpolatableLocation<T>)
        ensures
            r.value == value,
            r.location == location,
    {
        InterpolatableLocation { value, location }
    }

    /// Interpolates toward `other` at the absolute `position`, which lies
    /// between the two locations.
    pub fn interpolate(&self, interpolation: Interpolation, position: u64, other: &Self) -> (r: T)
        requires
            interpolation.wf(),
            self.location <= other.location,
            self.location < other.location ==> self.location <= position <= other.location,
        ensures
            r == T::spec_interpolate(
                interpolation,
                local_ratio(position as int, self.location as int, other.location as int),
                self.value,
                other.value,
            ),
    {
        let mut interpolator = Interpolator::new(interpolation);
        if self.location == other.location {
            interpolator.ratio = UNIT / 2;
        } else {
            let offset = (position - self.location) as u128;
            let range = (other.location - self.location) as u128;
            assert(offset * 1_000_000 <= range * 1_000_000) by (nonlinear_arith)
                requires
                    offset <= range,
            ;
            let scaled = offset * (UNIT as u128) / range;
            let ghost o = offset as int;
            let ghost g = range as int;
            assert(o * 1_000_000 / g <= g * 1_000_000 / g) by (nonlinear_arith)
                requires
                    o * 1_000_000 <= g * 1_000_000,
                    g > 0,
            ;
            assert(g * 1_000_000 / g == 1_000_000) by (nonlinear_arith)
                requires
                    g > 0,
            ;
            interpolator.ratio = scaled as i64;
        }
        interpolator.interpolate(&self.value, &other.value)
    }
}

} // verus!
