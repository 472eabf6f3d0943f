//! The quadratic escape-time kernel in fixed point, and its colorizer.
use vstd::prelude::*;

use crate::color::Color;
use crate::color_palette::ColorPalette;
use crate::complex::{Complex, COORD_ONE};
use crate::fractal::{Colorizer, FractalPoint, FractalRepresentation, MAX_PIXELS};
use crate::interpolation::UNIT;
use crate::rendering_settings::RenderingSettings;

verus! {

/// The largest iteration cap.
pub const MAX_ITERATIONS: u64 = 0xFFFF_FFFF;

/// Sample coordinates are held within `[-256, 256]`: points farther out
/// escape at the first step either way.
pub const COORD_LIMIT: i64 = 0x4000_0000_0000_0000;

/// The escape radius squared with smoothing (radius 8), in coordinate units.
pub const SMOOTH_RADIUS_SQ: i64 = 64 * COORD_ONE;

/// The escape radius squared without smoothing (radius 2), in coordinate units.
pub const PLAIN_RADIUS_SQ: i64 = 4 * COORD_ONE;

/// A fixed-point product, rounded toward zero.
pub open spec fn fmul(a: int, b: int) -> int {
    crate::interpolation::trunc_div(a * b, COORD_ONE as int)
}

/// The orbit state after `n` steps of `z <- z^2 + c` from zero:
/// `(re, im, re^2, im^2)`.
pub open spec fn orbit(c_re: int, c_im: int, n: nat) -> (int, int, int, int)
    decreases n,
{
    if n == 0 {
        (0, 0, 0, 0)
    } else {
        let prev = orbit(c_re, c_im, (n - 1) as nat);
        let im = fmul(2 * prev.0, prev.1) + c_im;
        let re = prev.2 - prev.3 + c_re;
        (re, im, fmul(re, re), fmul(im, im))
    }
}

pub open spec fn modulus_sq(o: (int, int, int, int)) -> int {
    o.2 + o.3
}

/// The first step count from `k` on at which the orbit reaches the radius,
/// or the cap.
pub open spec fn escape_time(c_re: int, c_im: int, max: nat, radius_sq: int, k: nat) -> nat
    decreases max - k,
{
    if k >= max || modulus_sq(orbit(c_re, c_im, k)) >= radius_sq {
        k
    } else {
        escape_time(c_re, c_im, max, radius_sq, k + 1)
    }
}

/// The continuous dwell value `n + 1 - compensation`, in millionths.
pub open spec fn smoothed_dwell(steps: int, compensation: int) -> int {
    (steps + 1) * UNIT - compensation
}

/// Among escaping points of the same final radius, more steps give a larger
/// smoothed dwell value.
pub proof fn lemma_smoothing_monotonic(steps1: int, steps2: int, compensation: int)
    requires
        steps1 < steps2,
    ensures
        smoothed_dwell(steps1, compensation) < smoothed_dwell(steps2, compensation),
{
}

proof fn lemma_escape_time_bound(c_re: int, c_im: int, max: nat, radius_sq: int, k: nat)
    requires
        k <= max,
    ensures
        k <= escape_time(c_re, c_im, max, radius_sq, k) <= max,
    decreases max - k,
{
    if k < max {
        lemma_escape_time_bound(c_re, c_im, max, radius_sq, k + 1);
    }
}

proof fn lemma_origin_orbit(n: nat)
    ensures
        orbit(0, 0, n) == (0int, 0int, 0int, 0int),
    decreases n,
{
    if n > 0 {
        lemma_origin_orbit((n - 1) as nat);
    }
}

proof fn lemma_origin_escape(max: nat, radius_sq: int, k: nat)
    requires
        radius_sq > 0,
        k <= max,
    ensures
        escape_time(0, 0, max, radius_sq, k) == max,
    decreases max - k,
{
    lemma_origin_orbit(k);
    if k < max {
        lemma_origin_escape(max, radius_sq, k + 1);
    }
}

/// The origin never escapes: its recorded step count is the cap, with either radius.
pub proof fn lemma_origin_never_escapes(max: nat)
    ensures
        escape_time(0, 0, max, SMOOTH_RADIUS_SQ as int, 0) == max,
        escape_time(0, 0, max, PLAIN_RADIUS_SQ as int, 0) == max,
{
    lemma_origin_escape(max, SMOOTH_RADIUS_SQ as int, 0);
    lemma_origin_escape(max, PLAIN_RADIUS_SQ as int, 0);
}

proof fn lemma_orbit_step(c_re: int, c_im: int, n: nat)
    ensures
        orbit(c_re, c_im, n + 1) == ({
            let prev = orbit(c_re, c_im, n);
            let im = fmul(2 * prev.0, prev.1) + c_im;
            let re = prev.2 - prev.3 + c_re;
            (re, im, fmul(re, re), fmul(im, im))
        }),
{
}

/// A sample at the origin records the cap, and the colorizer gives it the
/// override color.
pub proof fn lemma_origin_records_cap(config: Mandelbrot, compensation: int)
    requires
        config.wf(),
    ensures
        escape_time(0, 0, config.max_iterations as nat, config.radius_sq(), 0) == config.max_iterations,
        config.sample_value(config.max_iterations as int, compensation) == config.max_iterations * UNIT,
        config.spec_color_of(config.max_iterations * UNIT) == Some(config.set_color),
{
    lemma_origin_never_escapes(config.max_iterations as nat);
}

proof fn lemma_square_bound(x: int)
    requires
        fmul(x, x) < 64 * COORD_ONE,
    ensures
        -8 * COORD_ONE <= x <= 8 * COORD_ONE,
{
    let one = COORD_ONE as int;
    assert(x * x >= 0) by (nonlinear_arith);
    assert(x * x / one < 64 * one);
    if x > 8 * one {
        assert(x * x >= (8 * one + 1) * (8 * one + 1)) by (nonlinear_arith)
            requires
                x >= 8 * one + 1,
                one > 0,
        ;
        assert((8 * one + 1) * (8 * one + 1) == 64 * one * one + 16 * one + 1) by (nonlinear_arith);
        assert(x * x / one >= (64 * one * one) / one) by (nonlinear_arith)
            requires
                x * x >= 64 * one * one,
                one > 0,
        ;
        assert((64 * one * one) / one == 64 * one) by (nonlinear_arith)
            requires
                one > 0,
        ;
    }
    if x < -8 * one {
        let y = -x;
        assert(x * x == y * y) by (nonlinear_arith)
            requires
                y == -x,
        ;
        assert(y * y >= (8 * one + 1) * (8 * one + 1)) by (nonlinear_arith)
            requires
                y >= 8 * one + 1,
                one > 0,
        ;
        assert((8 * one + 1) * (8 * one + 1) == 64 * one * one + 16 * one + 1) by (nonlinear_arith);
        assert(x * x / one >= (64 * one * one) / one) by (nonlinear_arith)
            requires
                x * x >= 64 * one * one,
                one > 0,
        ;
        assert((64 * one * one) / one == 64 * one) by (nonlinear_arith)
            requires
                one > 0,
        ;
    }
}

/// A fixed-point product of two numbers below `2^63` in magnitude.
fn fixed_mul(a: i128, b: i128) -> (r: i128)
    requires
        -0x8000_0000_0000_0000 <= a <= 0x8000_0000_0000_0000,
        -0x8000_0000_0000_0000 <= b <= 0x8000_0000_0000_0000,
    ensures
        r == fmul(a as int, b as int),
{
    assert(-0x8000_0000_0000_0000 * 0x8000_0000_0000_0000 <= a * b <= 0x8000_0000_0000_0000 * 0x8000_0000_0000_0000)
        by (nonlinear_arith)
        requires
            -0x8000_0000_0000_0000 <= a <= 0x8000_0000_0000_0000,
            -0x8000_0000_0000_0000 <= b <= 0x8000_0000_0000_0000,
    ;
    let p = a * b;
    let one = COORD_ONE as i128;
    if p >= 0 {
        p / one
    } else {
        -((-p) / one)
    }
}

proof fn lemma_fmul_small(a: int, b: int, ba: int, bb: int)
    requires
        -ba <= a <= ba,
        -bb <= b <= bb,
        0 <= ba,
        0 <= bb,
    ensures
        -(ba * bb) / (COORD_ONE as int) <= fmul(a, b) <= (ba * bb) / (COORD_ONE as int),
        fmul(a, a) >= 0,
{
    let one = COORD_ONE as int;
    let bound = ba * bb;
    assert(-(ba * bb) <= a * b <= ba * bb) by (nonlinear_arith)
        requires
            -ba <= a <= ba,
            -bb <= b <= bb,
    ;
    assert(a * a >= 0) by (nonlinear_arith);
    if a * b >= 0 {
        assert((a * b) / one <= bound / one) by (nonlinear_arith)
            requires
                a * b <= bound,
                one > 0,
        ;
        assert((a * b) / one >= 0) by (nonlinear_arith)
            requires
                a * b >= 0,
                one > 0,
        ;
    } else {
        assert((-(a * b)) / one <= bound / one) by (nonlinear_arith)
            requires
                -(a * b) <= bound,
                one > 0,
        ;
        assert((-(a * b)) / one >= 0) by (nonlinear_arith)
            requires
                -(a * b) >= 0,
                one > 0,
        ;
    }
}

/// A fractal configuration: center, zoom (a natural-log exponent, in
/// millionths), iteration cap, smoothing, and the color of points that never
/// escape.
#[derive(Clone, Copy, Debug)]
pub struct Mandelbrot {
    pub center: Complex,
    pub zoom_exponent: i64,
    pub max_iterations: u64,
    pub smoothing: bool,
    pub set_color: Color,
}

impl Mandelbrot {
    pub open spec fn wf(&self) -> bool {
        &&& self.max_iterations <= MAX_ITERATIONS
        &&& self.set_color.wf()
    }

    pub fn new(center: Complex, zoom_exponent: i64, max_iterations: u64, smoothing: bool, set_color: Color) -> (r: Self)
        ensures
            r.center == center,
            r.zoom_exponent == zoom_exponent,
            r.max_iterations == max_iterations,
            r.smoothing == smoothing,
            r.set_color == set_color,
    {
        Mandelbrot { center, zoom_exponent, max_iterations, smoothing, set_color }
    }

    /// The escape radius squared: 64 with smoothing, else 4.
    pub open spec fn radius_sq(&self) -> int {
        if self.smoothing {
            SMOOTH_RADIUS_SQ as int
        } else {
            PLAIN_RADIUS_SQ as int
        }
    }

    /// Iterates `z <- z^2 + c` from zero until `|z|^2` reaches the escape
    /// radius squared or the cap; returns the step count and the final `|z|^2`.
    pub fn escape(&self, c_re: i64, c_im: i64) -> (r: (u64, i128))
        requires
            self.wf(),
            -COORD_LIMIT <= c_re <= COORD_LIMIT,
            -COORD_LIMIT <= c_im <= COORD_LIMIT,
        ensures
            r.0 == escape_time(c_re as int, c_im as int, self.max_iterations as nat, self.radius_sq(), 0),
            r.1 == modulus_sq(orbit(c_re as int, c_im as int, r.0 as nat)),
            r.0 <= self.max_iterations,
    {
        proof {
            lemma_escape_time_bound(c_re as int, c_im as int, self.max_iterations as nat, self.radius_sq(), 0);
        }
        let radius_sq: i128 = if self.smoothing {
            SMOOTH_RADIUS_SQ as i128
        } else {
            PLAIN_RADIUS_SQ as i128
        };
        let ghost cr = c_re as int;
        let ghost ci = c_im as int;
        let ghost max = self.max_iterations as nat;
        let mut iteration: u64 = 0;
        let mut z_re: i128 = 0;
        let mut z_im: i128 = 0;
        let mut z_re_square: i128 = 0;
        let mut z_im_square: i128 = 0;
        let bound: i128 = 400 * COORD_ONE as i128;
        while iteration < self.max_iterations && z_re_square + z_im_square < radius_sq
            invariant
                self.wf(),
                -COORD_LIMIT <= c_re <= COORD_LIMIT,
                -COORD_LIMIT <= c_im <= COORD_LIMIT,
                radius_sq == self.radius_sq(),
                max == self.max_iterations as nat,
                cr == c_re as int,
                ci == c_im as int,
                bound == 400 * COORD_ONE,
                iteration <= self.max_iterations,
                (z_re as int, z_im as int, z_re_square as int, z_im_square as int) == orbit(cr, ci, iteration as nat),
                -bound <= z_re <= bound,
                -bound <= z_im <= bound,
                z_re_square == fmul(z_re as int, z_re as int),
                z_im_square == fmul(z_im as int, z_im as int),
                0 <= z_re_square <= 0x1_0000_0000_0000_0000_0000,
                0 <= z_im_square <= 0x1_0000_0000_0000_0000_0000,
                escape_time(cr, ci, max, radius_sq as int, 0) == escape_time(cr, ci, max, radius_sq as int, iteration as nat),
            decreases self.max_iterations - iteration,
        {
            proof {
                lemma_square_bound(z_re as int);
                lemma_square_bound(z_im as int);
            }
            let ghost prev = orbit(cr, ci, iteration as nat);
            proof {
                assert(modulus_sq(prev) < radius_sq);
                assert(escape_time(cr, ci, max, radius_sq as int, iteration as nat) == escape_time(
                    cr,
                    ci,
                    max,
                    radius_sq as int,
                    (iteration + 1) as nat,
                ));
                lemma_orbit_step(cr, ci, iteration as nat);
            }
            let two_re = z_re + z_re;
            let prod = fixed_mul(two_re, z_im);
            proof {
                lemma_fmul_small(two_re as int, z_im as int, 16 * COORD_ONE, 8 * COORD_ONE);
                assert(fmul(2 * z_re, z_im as int) == prod);
            }
            let new_im = prod + c_im as i128;
            let new_re = z_re_square - z_im_square + c_re as i128;
            assert(-bound <= new_im <= bound);
            assert(-bound <= new_re <= bound);
            z_im = new_im;
            z_re = new_re;
            z_re_square = fixed_mul(z_re, z_re);
            z_im_square = fixed_mul(z_im, z_im);
            proof {
                lemma_fmul_small(z_re as int, z_re as int, bound as int, bound as int);
                lemma_fmul_small(z_im as int, z_im as int, bound as int, bound as int);
                let one = COORD_ONE as int;
                assert((400 * one) * (400 * one) / one == 160000 * one) by (nonlinear_arith)
                    requires
                        one > 0,
                ;
                let next = orbit(cr, ci, (iteration + 1) as nat);
                assert(next == (z_re as int, z_im as int, z_re_square as int, z_im_square as int));
            }
            iteration = iteration + 1;
        }
        (iteration, z_re_square + z_im_square)
    }

    /// The recorded value of a sample with step count `steps` and final
    /// `|z|^2` compensation `compensation` (in millionths): the smoothed dwell
    /// for an escaped point when smoothing, else the step count.
    pub open spec fn sample_value(&self, steps: int, compensation: int) -> int {
        if self.smoothing && steps < self.max_iterations {
            smoothed_dwell(steps, compensation)
        } else {
            steps * UNIT
        }
    }

    /// The recorded value of one sample; `compensation` gives
    /// `ln(ln(radius) * ln|z|) / ln 2` in millionths for the final `|z|^2`,
    /// which is positive for every escaped point. Only a sample that reached
    /// the cap records the cap.
    pub fn dwell<F: Fn(i128) -> u32>(&self, steps: u64, modulus_sq: i128, compensation: &F) -> (r: i64)
        requires
            self.wf(),
            steps <= self.max_iterations,
            forall|m: i128| compensation.requires((m,)),
            forall|m: i128, k: u32| compensation.ensures((m,), k) ==> k > 0,
        ensures
            self.smoothing && steps < self.max_iterations ==> exists|k: u32|
                compensation.ensures((modulus_sq,), k) && r == self.sample_value(steps as int, k as int),
            !(self.smoothing && steps < self.max_iterations) ==> r == self.sample_value(steps as int, 0),
            steps < self.max_iterations ==> r < self.max_iterations * UNIT,
    {
        if self.smoothing && steps < self.max_iterations {
            let k = compensation(modulus_sq);
            assert(0 <= (steps + 1) * 1_000_000 <= 0x1_0000_0000 * 1_000_000) by (nonlinear_arith)
                requires
                    0 <= steps <= 0xFFFF_FFFF,
            ;
            let r = (steps as i64 + 1) * UNIT - k as i64;
            assert(compensation.ensures((modulus_sq,), k) && r == self.sample_value(steps as int, k as int));
            r
        } else {
            assert(0 <= steps * 1_000_000 <= 0x1_0000_0000 * 1_000_000) by (nonlinear_arith)
                requires
                    0 <= steps <= 0xFFFF_FFFF,
            ;
            steps as i64 * UNIT
        }
    }

    /// The color that a sample value takes without the palette: the override
    /// color at the cap.
    pub open spec fn spec_color_of(&self, iterations: int) -> Option<Color> {
        if iterations == self.max_iterations * UNIT {
            Some(self.set_color)
        } else {
            None
        }
    }

    /// The color of one sample value: the override color at the cap, else the palette's.
    pub fn get_color<P: ColorPalette>(&self, iterations: i64, palette: &mut P) -> (r: Color)
        requires
            self.wf(),
            old(palette).inv(),
            self.spec_color_of(iterations as int) is None ==> old(palette).accepts(iterations as int),
        ensures
            final(palette).inv(),
            self.spec_color_of(iterations as int) matches Some(c) ==> r == c && *final(palette) == *old(palette),
            self.spec_color_of(iterations as int) is None ==> old(palette).gives_color(iterations as int, r),
            forall|i: int, c: Color| #[trigger] final(palette).gives_color(i, c) == old(palette).gives_color(i, c),
            forall|i: int| #[trigger] final(palette).accepts(i) == old(palette).accepts(i),
            r.wf(),
    {
        if iterations == self.max_iterations as i64 * UNIT {
            self.set_color
        } else {
            palette.get_color(iterations)
        }
    }

    /// The distance between neighbouring pixels, in coordinate units, for the
    /// zoom scale `e^-zoom_exponent` (in coordinate units): 2 over the height
    /// where `width * 1.5 > height`, else 3 over the width.
    pub open spec fn spec_pixel_step(width: int, height: int, zoom_scale: int) -> int {
        if 3 * width > 2 * height {
            2 * zoom_scale / height
        } else {
            3 * zoom_scale / width
        }
    }

    pub fn pixel_step(settings: &RenderingSettings, zoom_scale: i64) -> (r: i128)
        requires
            settings.resolution.width >= 1,
            settings.resolution.height >= 1,
            zoom_scale > 0,
        ensures
            r == Self::spec_pixel_step(
                settings.resolution.width as int,
                settings.resolution.height as int,
                zoom_scale as int,
            ),
            0 <= r <= 3 * zoom_scale,
    {
        let w = settings.resolution.width as i128;
        let h = settings.resolution.height as i128;
        let z = zoom_scale as i128;
        let ghost zi = z as int;
        let ghost wi = w as int;
        let ghost hi = h as int;
        if 3 * w > 2 * h {
            assert(2 * zi / hi <= 2 * zi) by (nonlinear_arith)
                requires
                    hi >= 1,
                    zi > 0,
            ;
            assert(2 * zi / hi >= 0) by (nonlinear_arith)
                requires
                    hi >= 1,
                    zi > 0,
            ;
            2 * z / h
        } else {
            assert(3 * zi / wi <= 3 * zi) by (nonlinear_arith)
                requires
                    wi >= 1,
                    zi > 0,
            ;
            assert(3 * zi / wi >= 0) by (nonlinear_arith)
                requires
                    wi >= 1,
                    zi > 0,
            ;
            3 * z / w
        }
    }

    /// The complex coordinate of subsample `(a, b)` of pixel `(x, y)`, held
    /// within `[-COORD_LIMIT, COORD_LIMIT]`.
    pub open spec fn sample_coord(&self, settings: RenderingSettings, step: int, x: int, y: int, a: int, b: int) -> (int, int) {
        let sx = settings.sampling.spec_samples_x();
        let sy = settings.sampling.spec_samples_y();
        let w = settings.resolution.width as int;
        let h = settings.resolution.height as int;
        let re = crate::interpolation::trunc_div(step * (2 * (x * sx + a) - w * sx), 2 * sx) + self.center.re;
        let im = crate::interpolation::trunc_div(step * (h * sy - 2 * (y * sy + b)), 2 * sy) + self.center.im;
        (clamp_coord(re), clamp_coord(im))
    }

    /// The recorded value `value` is that of subsample `k` of pixel `(x, y)`.
    pub open spec fn sample_ok<F: Fn(i128) -> u32>(
        &self,
        settings: RenderingSettings,
        step: int,
        x: int,
        y: int,
        k: int,
        value: int,
        compensation: F,
    ) -> bool {
        let sy = settings.sampling.spec_samples_y();
        let c = self.sample_coord(settings, step, x, y, k / sy, k % sy);
        let n = escape_time(c.0, c.1, self.max_iterations as nat, self.radius_sq(), 0);
        let m = modulus_sq(orbit(c.0, c.1, n));
        &&& n < self.max_iterations ==> value < self.max_iterations * UNIT
        &&& if self.smoothing && n < self.max_iterations {
            exists|comp: u32| #[trigger] compensation.ensures((m as i128,), comp) && value == self.sample_value(n as int, comp as int)
        } else {
            value == self.sample_value(n as int, 0)
        }
    }

    /// The point of pixel `(x, y)` holds the values of all its subsamples.
    pub open spec fn point_ok<F: Fn(i128) -> u32>(
        &self,
        settings: RenderingSettings,
        step: int,
        x: int,
        y: int,
        point: FractalPoint,
        compensation: F,
    ) -> bool {
        &&& point.iterations.len() == settings.sampling.spec_samples_x() * settings.sampling.spec_samples_y()
        &&& forall|k: int| 0 <= k < point.iterations.len() ==>
            self.sample_ok(settings, step, x, y, k, #[trigger] point.iterations@[k] as int, compensation)
    }

    /// Computes every subsample of pixel `(x, y)`.
    pub fn compute_point<F: Fn(i128) -> u32>(
        &self,
        settings: &RenderingSettings,
        step: i128,
        x: u32,
        y: u32,
        compensation: &F,
    ) -> (r: FractalPoint)
        requires
            self.wf(),
            0 <= step <= 0x2_0000_0000_0000_0000,
            forall|m: i128| compensation.requires((m,)),
            forall|m: i128, k: u32| compensation.ensures((m,), k) ==> k > 0,
        ensures
            self.point_ok(*settings, step as int, x as int, y as int, r, *compensation),
    {
        let sx = settings.sampling.samples_x() as i128;
        let sy = settings.sampling.samples_y() as i128;
        let w = settings.resolution.width as i128;
        let h = settings.resolution.height as i128;
        let mut point = FractalPoint::new();
        let mut a: i128 = 0;
        while a < sx
            invariant
                self.wf(),
                0 <= step <= 0x2_0000_0000_0000_0000,
                forall|m: i128| compensation.requires((m,)),
                forall|m: i128, k: u32| compensation.ensures((m,), k) ==> k > 0,
            forall|m: i128, k: u32| compensation.ensures((m,), k) ==> k > 0,
                sx == settings.sampling.spec_samples_x(),
                sy == settings.sampling.spec_samples_y(),
                w == settings.resolution.width,
                h == settings.resolution.height,
                0 <= a <= sx,
                point.iterations.len() == a * sy,
                forall|k: int| 0 <= k < point.iterations.len() ==>
                    self.sample_ok(*settings, step as int, x as int, y as int, k, #[trigger] point.iterations@[k] as int, *compensation),
            decreases sx - a,
        {
            let mut b: i128 = 0;
            while b < sy
                invariant
                    self.wf(),
                    0 <= step <= 0x2_0000_0000_0000_0000,
                    forall|m: i128| compensation.requires((m,)),
                    forall|m: i128, k: u32| compensation.ensures((m,), k) ==> k > 0,
                forall|m: i128, k: u32| compensation.ensures((m,), k) ==> k > 0,
            forall|m: i128, k: u32| compensation.ensures((m,), k) ==> k > 0,
                    sx == settings.sampling.spec_samples_x(),
                    sy == settings.sampling.spec_samples_y(),
                    w == settings.resolution.width,
                    h == settings.resolution.height,
                    0 <= a < sx,
                    0 <= b <= sy,
                    point.iterations.len() == a * sy + b,
                    forall|k: int| 0 <= k < point.iterations.len() ==>
                        self.sample_ok(*settings, step as int, x as int, y as int, k, #[trigger] point.iterations@[k] as int, *compensation),
                decreases sy - b,
            {
                let off_re = 2 * (x as i128 * sx + a) - w * sx;
                let off_im = h * sy - 2 * (y as i128 * sy + b);
                assert(-0x4_0000_0000 <= off_re <= 0x4_0000_0000 && -0x4_0000_0000 <= off_im <= 0x4_0000_0000) by (nonlinear_arith)
                    requires
                        off_re == 2 * (x * sx + a) - w * sx,
                        off_im == h * sy - 2 * (y * sy + b),
                        1 <= sx <= 2,
                        1 <= sy <= 2,
                        0 <= a < sx,
                        0 <= b < sy,
                        0 <= x <= 0xFFFF_FFFF,
                        0 <= y <= 0xFFFF_FFFF,
                        0 <= w <= 0xFFFF_FFFF,
                        0 <= h <= 0xFFFF_FFFF,
                ;
                assert(-0x2_0000_0000_0000_0000 * 0x4_0000_0000 <= step * off_re <= 0x2_0000_0000_0000_0000 * 0x4_0000_0000) by (nonlinear_arith)
                    requires
                        0 <= step <= 0x2_0000_0000_0000_0000,
                        -0x4_0000_0000 <= off_re <= 0x4_0000_0000,
                ;
                assert(-0x2_0000_0000_0000_0000 * 0x4_0000_0000 <= step * off_im <= 0x2_0000_0000_0000_0000 * 0x4_0000_0000) by (nonlinear_arith)
                    requires
                        0 <= step <= 0x2_0000_0000_0000_0000,
                        -0x4_0000_0000 <= off_im <= 0x4_0000_0000,
                ;
                let re = clamp_fixed(trunc_div_exec(step * off_re, 2 * sx) + self.center.re as i128);
                let im = clamp_fixed(trunc_div_exec(step * off_im, 2 * sy) + self.center.im as i128);
                let (n, m) = self.escape(re, im);
                let v = self.dwell(n, m, compensation);
                let ghost k = point.iterations.len() as int;
                proof {
                    assert((re as int, im as int) == self.sample_coord(*settings, step as int, x as int, y as int, a as int, b as int));
                    let syi = sy as int;
                    let ai = a as int;
                    let bi = b as int;
                    assert(k / syi == ai && k % syi == bi) by (nonlinear_arith)
                        requires
                            k == ai * syi + bi,
                            1 <= syi <= 2,
                            0 <= bi < syi,
                            0 <= ai,
                    ;
                }
                point.add_iteration(v);
                proof {
                    let c = self.sample_coord(*settings, step as int, x as int, y as int, k / (sy as int), k % (sy as int));
                    assert(c == (re as int, im as int));
                    let nn = escape_time(c.0, c.1, self.max_iterations as nat, self.radius_sq(), 0);
                    assert(nn == n);
                    let mm = modulus_sq(orbit(c.0, c.1, nn));
                    assert(mm == m);
                    assert(mm as i128 == m);
                    if self.smoothing && n < self.max_iterations {
                        let kk = choose|kk: u32| compensation.ensures((m,), kk) && v == self.sample_value(n as int, kk as int);
                        assert(compensation.ensures((mm as i128,), kk));
                    }
                    assert(self.sample_ok(*settings, step as int, x as int, y as int, k, v as int, *compensation));
                }
                b = b + 1;
            }
            a = a + 1;
        }
        point
    }

    /// Computes every pixel for `settings`: `zoom_scale` gives
    /// `e^-zoom_exponent` in coordinate units for the configured zoom exponent
    /// (a result below 1 counts as 1), and `compensation` the smoothing term
    /// for a final `|z|^2`.
    pub fn calculate<Z: Fn(i64) -> i64, F: Fn(i128) -> u32>(
        &self,
        settings: &RenderingSettings,
        zoom_scale: &Z,
        compensation: &F,
    ) -> (r: FractalRepresentation<Mandelbrot>)
        requires
            self.wf(),
            settings.resolution.width * settings.resolution.height <= MAX_PIXELS,
            zoom_scale.requires((self.zoom_exponent,)),
            forall|m: i128| compensation.requires((m,)),
            forall|m: i128, k: u32| compensation.ensures((m,), k) ==> k > 0,
        ensures
            r.wf(),
            r.colorizer == *self,
            r.rendering_settings == *settings,
            exists|s: i64| #[trigger] zoom_scale.ensures((self.zoom_exponent,), s) && forall|i: int| 0 <= i < r.points.len() ==> self.point_ok(
                *settings,
                Self::spec_pixel_step(
                    settings.resolution.width as int,
                    settings.resolution.height as int,
                    if s < 1 { 1 } else { s as int },
                ),
                i / settings.resolution.height as int,
                i % settings.resolution.height as int,
                #[trigger] r.points@[i],
                *compensation,
            ),
    {
        let s = zoom_scale(self.zoom_exponent);
        let scale = if s < 1 {
            1
        } else {
            s
        };
        self.calculate_with_scale(settings, scale, compensation)
    }

    /// Computes every pixel for `settings` at the zoom scale `zoom_scale`
    /// (`e^-zoom_exponent` in coordinate units); `compensation` gives the
    /// smoothing term for a final `|z|^2`.
    pub fn calculate_with_scale<F: Fn(i128) -> u32>(
        &self,
        settings: &RenderingSettings,
        zoom_scale: i64,
        compensation: &F,
    ) -> (r: FractalRepresentation<Mandelbrot>)
        requires
            self.wf(),
            settings.resolution.width * settings.resolution.height <= MAX_PIXELS,
            zoom_scale > 0,
            forall|m: i128| compensation.requires((m,)),
            forall|m: i128, k: u32| compensation.ensures((m,), k) ==> k > 0,
        ensures
            r.wf(),
            r.colorizer == *self,
            r.rendering_settings == *settings,
            forall|i: int| 0 <= i < r.points.len() ==> self.point_ok(
                *settings,
                Self::spec_pixel_step(settings.resolution.width as int, settings.resolution.height as int, zoom_scale as int),
                i / settings.resolution.height as int,
                i % settings.resolution.height as int,
                #[trigger] r.points@[i],
                *compensation,
            ),
    {
        if settings.resolution.width == 0 || settings.resolution.height == 0 {
            return FractalRepresentation { colorizer: *self, rendering_settings: *settings, points: Vec::new() };
        }
        let step = Self::pixel_step(settings, zoom_scale);
        let w = settings.resolution.width;
        let h = settings.resolution.height;
        let mut points: Vec<FractalPoint> = Vec::new();
        let mut x: u32 = 0;
        while x < w
            invariant
                self.wf(),
                forall|m: i128| compensation.requires((m,)),
                forall|m: i128, k: u32| compensation.ensures((m,), k) ==> k > 0,
            forall|m: i128, k: u32| compensation.ensures((m,), k) ==> k > 0,
                w == settings.resolution.width,
                h == settings.resolution.height,
                h >= 1,
                w * h <= MAX_PIXELS,
                0 <= step <= 0x2_0000_0000_0000_0000,
                step == Self::spec_pixel_step(w as int, h as int, zoom_scale as int),
                x <= w,
                points.len() == x * h,
                forall|i: int| 0 <= i < points.len() ==> self.point_ok(*settings, step as int, i / h as int, i % h as int, #[trigger] points@[i], *compensation),
            decreases w - x,
        {
            let mut y: u32 = 0;
            while y < h
                invariant
                    self.wf(),
                    forall|m: i128| compensation.requires((m,)),
                    forall|m: i128, k: u32| compensation.ensures((m,), k) ==> k > 0,
                forall|m: i128, k: u32| compensation.ensures((m,), k) ==> k > 0,
            forall|m: i128, k: u32| compensation.ensures((m,), k) ==> k > 0,
                    w == settings.resolution.width,
                    h == settings.resolution.height,
                    h >= 1,
                    w * h <= MAX_PIXELS,
                    0 <= step <= 0x2_0000_0000_0000_0000,
                    x < w,
                    y <= h,
                    points.len() == x * h + y,
                    forall|i: int| 0 <= i < points.len() ==> self.point_ok(*settings, step as int, i / h as int, i % h as int, #[trigger] points@[i], *compensation),
                decreases h - y,
            {
                let p = self.compute_point(settings, step, x, y, compensation);
                let ghost i = points.len() as int;
                proof {
                    let hi = h as int;
                    let xi = x as int;
                    let yi = y as int;
                    assert(i / hi == xi && i % hi == yi) by (nonlinear_arith)
                        requires
                            i == xi * hi + yi,
                            0 <= yi < hi,
                            0 <= xi,
                    ;
                    assert(x * h + y < w * h) by (nonlinear_arith)
                        requires
                            x < w,
                            y < h,
                    ;
                }
                points.push(p);
                y = y + 1;
            }
            assert(x * h + h == (x + 1) * h) by (nonlinear_arith);
            x = x + 1;
        }
        let r = FractalRepresentation { colorizer: *self, rendering_settings: *settings, points };
        proof {
            assert forall|i: int| 0 <= i < r.points.len() implies (#[trigger] r.points@[i]).iterations.len()
                <= crate::fractal::MAX_SAMPLES by {
                assert(self.point_ok(*settings, step as int, i / h as int, i % h as int, r.points@[i], *compensation));
            }
        }
        r
    }
}

/// `x` held within `[-COORD_LIMIT, COORD_LIMIT]`.
pub open spec fn clamp_coord(x: int) -> int {
    if x < -COORD_LIMIT {
        -COORD_LIMIT as int
    } else if x > COORD_LIMIT {
        COORD_LIMIT as int
    } else {
        x
    }
}

fn clamp_fixed(x: i128) -> (r: i64)
    ensures
        r == clamp_coord(x as int),
        -COORD_LIMIT <= r <= COORD_LIMIT,
{
    if x < -(COORD_LIMIT as i128) {
        -COORD_LIMIT
    } else if x > COORD_LIMIT as i128 {
        COORD_LIMIT
    } else {
        x as i64
    }
}

fn trunc_div_exec(x: i128, d: i128) -> (r: i128)
    requires
        d > 0,
        x > i128::MIN,
    ensures
        r == crate::interpolation::trunc_div(x as int, d as int),
        -0x8000_0000_0000_0000_0000_0000_0000_0000 < r,
{
    if x >= 0 {
        x / d
    } else {
        -((-x) / d)
    }
}

impl Colorizer for Mandelbrot {
    closed spec fn inv(&self) -> bool {
        self.wf()
    }

    open spec fn color_of(&self, iterations: int) -> Option<Color> {
        self.spec_color_of(iterations)
    }

    open spec fn max_value(&self) -> int {
        self.max_iterations as int
    }

    fn setup_palette<P: ColorPalette>(&self, palette: &mut P) {
        palette.set_max(self.max_iterations)
    }

    fn get_color<P: ColorPalette>(&self, iterations: i64, palette: &mut P) -> (r: Color) {
        Mandelbrot::get_color(self, iterations, palette)
    }
}

} // verus!
