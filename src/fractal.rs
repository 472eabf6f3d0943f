//! The raw result of an escape-time computation: per pixel, the list of
//! per-subsample dwell values (in millionths of an iteration).
use vstd::prelude::*;

use crate::color::Color;
use crate::color_palette::ColorPalette;
use crate::interpolation::UNIT;
use crate::rendering_settings::RenderingSettings;

verus! {

/// The dwell values of the subsamples of one pixel.
pub struct FractalPoint {
    pub iterations: Vec<i64>,
}

/// All subsample values of a sequence of points, in order.
pub open spec fn samples_of(points: Seq<FractalPoint>) -> Seq<i64>
    decreases points.len(),
{
    if points.len() == 0 {
        Seq::empty()
    } else {
        samples_of(points.drop_last()) + points.last().iterations@
    }
}

/// At most `MAX_PIXELS` pixels: a pixel list of that size is already beyond
/// what memory can hold.
pub const MAX_PIXELS: u64 = 0x0800_0000_0000_0000;

/// At most four subsamples per pixel.
pub const MAX_SAMPLES: usize = 4;

/// Maps dwell values to colors: the hook a fractal gives its palette.
pub trait Colorizer {
    /// The colorizer is well formed.
    spec fn inv(&self) -> bool;

    /// The color that a sample value takes without the palette, if any.
    spec fn color_of(&self, iterations: int) -> Option<Color>;

    /// The largest iteration count, to which the palette is calibrated.
    spec fn max_value(&self) -> int;

    /// Calibrates `palette` for this fractal.
    fn setup_palette<P: ColorPalette>(&self, palette: &mut P)
        requires
            self.inv(),
            old(palette).inv(),
        ensures
            final(palette).inv(),
            old(palette).max_set(self.max_value(), *final(palette)),
    ;

    /// The color of one subsample value: its own color where it has one, with
    /// the palette untouched, else the palette's color.
    fn get_color<P: ColorPalette>(&self, iterations: i64, palette: &mut P) -> (r: Color)
        requires
            self.inv(),
            old(palette).inv(),
            self.color_of(iterations as int) is None ==> old(palette).accepts(iterations as int),
        ensures
            final(palette).inv(),
            self.color_of(iterations as int) matches Some(c) ==> r == c && *final(palette) == *old(palette),
            self.color_of(iterations as int) is None ==> old(palette).gives_color(iterations as int, r),
            forall|i: int, c: Color| #[trigger] final(palette).gives_color(i, c) == old(palette).gives_color(i, c),
            forall|i: int| #[trigger] final(palette).accepts(i) == old(palette).accepts(i),
            r.wf(),
    ;
}

/// `c` is the color of sample value `v`: the colorizer's own where it has one,
/// else one that `palette` gives.
pub open spec fn sample_color_ok<C: Colorizer, P: ColorPalette>(colorizer: &C, palette: P, v: int, c: Color) -> bool {
    match colorizer.color_of(v) {
        Some(f) => c == f,
        None => palette.gives_color(v, c),
    }
}

/// `cs` holds one color per sample value of `vs`.
pub open spec fn colors_match<C: Colorizer, P: ColorPalette>(colorizer: &C, palette: P, vs: Seq<i64>, cs: Seq<Color>) -> bool {
    &&& cs.len() == vs.len()
    &&& forall|j: int| 0 <= j < vs.len() ==> sample_color_ok(colorizer, palette, vs[j] as int, #[trigger] cs[j])
}

/// `c` is the color of `point`: the mean of its sample colors, black without samples.
pub open spec fn point_color_ok<C: Colorizer, P: ColorPalette>(colorizer: &C, palette: P, point: FractalPoint, c: Color) -> bool {
    let vs = point.iterations@;
    if vs.len() == 0 {
        c == Color::rgb(0, 0, 0)
    } else {
        exists|cs: Seq<Color>| #[trigger] colors_match(colorizer, palette, vs, cs) && c == Color::spec_average(cs)
    }
}

/// `palette` takes every sample value of `point` that needs it.
pub open spec fn point_accepted<C: Colorizer, P: ColorPalette>(colorizer: &C, palette: P, point: FractalPoint) -> bool {
    forall|j: int| 0 <= j < point.iterations.len() && colorizer.color_of(point.iterations@[j] as int) is None
        ==> palette.accepts(#[trigger] point.iterations@[j] as int)
}

/// `next` is `palette` calibrated to `max` and then prepared with `samples`.
pub open spec fn calibrated<P: ColorPalette>(palette: P, max: int, samples: Seq<i64>, next: P) -> bool {
    exists|mid: P| #[trigger] palette.max_set(max, mid) && mid.prepared(samples, next)
}

/// Pixel `(x, y)` of `image` shows the color of its point.
pub open spec fn pixel_ok<C: Colorizer, P: ColorPalette>(
    colorizer: &C,
    palette: P,
    points: Seq<FractalPoint>,
    image: Seq<u8>,
    w: int,
    h: int,
    x: int,
    y: int,
) -> bool {
    exists|c: Color| #[trigger] point_color_ok(colorizer, palette, points[x * h + y], c) && pixel_bytes(image, w, x, y) == rgb_bytes(c)
}

proof fn lemma_point_transfer<C: Colorizer, P: ColorPalette>(colorizer: &C, a: P, b: P, point: FractalPoint, c: Color)
    requires
        crate::color_palette::same_behaviour(a, b),
    ensures
        point_color_ok(colorizer, a, point, c) ==> point_color_ok(colorizer, b, point, c),
        point_accepted(colorizer, a, point) ==> point_accepted(colorizer, b, point),
{
    let vs = point.iterations@;
    if vs.len() > 0 && point_color_ok(colorizer, a, point, c) {
        let cs = choose|cs: Seq<Color>| #[trigger] colors_match(colorizer, a, vs, cs) && c == Color::spec_average(cs);
        assert forall|j: int| 0 <= j < vs.len() implies sample_color_ok(colorizer, b, vs[j] as int, #[trigger] cs[j]) by {
            assert(sample_color_ok(colorizer, a, vs[j] as int, cs[j]));
            assert(b.gives_color(vs[j] as int, cs[j]) == a.gives_color(vs[j] as int, cs[j]));
        }
        assert(colors_match(colorizer, b, vs, cs));
    }
    if point_accepted(colorizer, a, point) {
        assert forall|j: int| 0 <= j < point.iterations.len() && colorizer.color_of(point.iterations@[j] as int) is None
            implies b.accepts(#[trigger] point.iterations@[j] as int) by {
            assert(b.accepts(point.iterations@[j] as int) == a.accepts(point.iterations@[j] as int));
        }
    }
}

/// The three bytes of pixel `(x, y)` in a row-by-row image of width `w`.
pub open spec fn pixel_bytes(image: Seq<u8>, w: int, x: int, y: int) -> Seq<u8> {
    image.subrange(3 * (y * w + x), 3 * (y * w + x) + 3)
}

/// The bytes of a color, as `Color::to_rgb` gives them.
pub open spec fn rgb_bytes(c: Color) -> Seq<u8> {
    seq![
        (c.red * 255 / UNIT as int) as u8,
        (c.green * 255 / UNIT as int) as u8,
        (c.blue * 255 / UNIT as int) as u8,
    ]
}

impl FractalPoint {
    pub fn new() -> (r: FractalPoint)
        ensures
            r.iterations@ == Seq::<i64>::empty(),
    {
        FractalPoint { iterations: Vec::new() }
    }

    pub fn add_iteration(&mut self, iterations: i64)
        ensures
            final(self).iterations@ == old(self).iterations@.push(iterations),
    {
        self.iterations.push(iterations)
    }

    /// The subsample values.
    pub fn iter(&self) -> (r: &Vec<i64>)
        ensures
            r@ == self.iterations@,
    {
        &self.iterations
    }

    /// The mean of the subsample colors, each mapped on its own; black for a
    /// point without samples.
    pub fn get_color<C: Colorizer, P: ColorPalette>(&self, colorizer: &C, palette: &mut P) -> (r: Color)
        requires
            colorizer.inv(),
            old(palette).inv(),
            point_accepted(colorizer, *old(palette), *self),
        ensures
            final(palette).inv(),
            crate::color_palette::same_behaviour(*old(palette), *final(palette)),
            point_color_ok(colorizer, *old(palette), *self, r),
            r.wf(),
    {
        let mut colors: Vec<Color> = Vec::new();
        let mut i: usize = 0;
        while i < self.iterations.len()
            invariant
                0 <= i <= self.iterations.len(),
                colors.len() == i,
                colorizer.inv(),
                palette.inv(),
                point_accepted(colorizer, *old(palette), *self),
                crate::color_palette::same_behaviour(*old(palette), *palette),
                forall|j: int| 0 <= j < colors.len() ==> (#[trigger] colors@[j]).wf(),
                forall|j: int| 0 <= j < colors.len() ==> sample_color_ok(colorizer, *old(palette), self.iterations@[j] as int, #[trigger] colors@[j]),
            decreases self.iterations.len() - i,
        {
            let v = self.iterations[i];
            proof {
                assert(palette.accepts(v as int) == old(palette).accepts(v as int));
            }
            let ghost before = *palette;
            let c = colorizer.get_color(v, palette);
            proof {
                assert(before.gives_color(v as int, c) == old(palette).gives_color(v as int, c));
            }
            colors.push(c);
            i = i + 1;
        }
        if colors.len() == 0 {
            Color::black()
        } else {
            proof {
                assert(colors_match(colorizer, *old(palette), self.iterations@, colors@));
            }
            Color::average_iterator(colors)
        }
    }
}

/// The grid of points of one computation, stored column by column
/// (the point of pixel `(x, y)` at `x * height + y`), with the settings that
/// produced it and the colorizer that turns it into colors.
pub struct FractalRepresentation<C> {
    pub colorizer: C,
    pub rendering_settings: RenderingSettings,
    pub points: Vec<FractalPoint>,
}

impl<C> FractalRepresentation<C> {
    /// One point per pixel, at most `MAX_SAMPLES` samples each.
    pub open spec fn wf(&self) -> bool {
        let res = self.rendering_settings.resolution;
        &&& self.points.len() == res.width * res.height
        &&& self.points.len() <= MAX_PIXELS
        &&& forall|i: int| 0 <= i < self.points.len() ==> (#[trigger] self.points@[i]).iterations.len() <= MAX_SAMPLES
    }

    /// A grid of points without samples.
    pub fn new(colorizer: C, settings: RenderingSettings) -> (r: FractalRepresentation<C>)
        requires
            settings.resolution.width * settings.resolution.height <= MAX_PIXELS,
        ensures
            r.wf(),
            r.rendering_settings == settings,
            forall|i: int| 0 <= i < r.points.len() ==> (#[trigger] r.points@[i]).iterations@.len() == 0,
    {
        let n = settings.resolution.width as u64 * settings.resolution.height as u64;
        let mut points: Vec<FractalPoint> = Vec::new();
        let mut i: u64 = 0;
        while i < n
            invariant
                n == settings.resolution.width * settings.resolution.height,
                n <= MAX_PIXELS,
                i <= n,
                points.len() == i,
                forall|j: int| 0 <= j < points.len() ==> (#[trigger] points@[j]).iterations@.len() == 0,
            decreases n - i,
        {
            points.push(FractalPoint::new());
            i = i + 1;
        }
        FractalRepresentation { colorizer, rendering_settings: settings, points }
    }

    pub fn rendering_settings(&self) -> (r: &RenderingSettings)
        ensures
            *r == self.rendering_settings,
    {
        &self.rendering_settings
    }

    pub fn width(&self) -> (r: u32)
        ensures
            r == self.rendering_settings.resolution.width,
    {
        self.rendering_settings.resolution.width
    }

    pub fn height(&self) -> (r: u32)
        ensures
            r == self.rendering_settings.resolution.height,
    {
        self.rendering_settings.resolution.height
    }

    /// The point of pixel `(x, y)`.
    pub fn get_point(&self, x: u32, y: u32) -> (r: &FractalPoint)
        requires
            self.wf(),
            x < self.rendering_settings.resolution.width,
            y < self.rendering_settings.resolution.height,
        ensures
            *r == self.points@[x * self.rendering_settings.resolution.height + y],
    {
        let h = self.rendering_settings.resolution.height as u64;
        proof {
            lemma_grid_index(x as int, y as int, self.rendering_settings.resolution.width as int, h as int);
        }
        let idx = x as u64 * h + y as u64;
        &self.points[idx as usize]
    }

    /// The points, column by column.
    pub fn iter(&self) -> (r: &Vec<FractalPoint>)
        ensures
            r@ == self.points@,
    {
        &self.points
    }

    /// Every subsample value, point after point.
    pub fn iteration_iter(&self) -> (r: Vec<i64>)
        ensures
            r@ == samples_of(self.points@),
    {
        let mut out: Vec<i64> = Vec::new();
        let mut i: usize = 0;
        while i < self.points.len()
            invariant
                0 <= i <= self.points.len(),
                out@ == samples_of(self.points@.subrange(0, i as int)),
            decreases self.points.len() - i,
        {
            let p = &self.points[i];
            let mut j: usize = 0;
            let ghost before = out@;
            while j < p.iterations.len()
                invariant
                    0 <= j <= p.iterations.len(),
                    out@ == before + p.iterations@.subrange(0, j as int),
                decreases p.iterations.len() - j,
            {
                out.push(p.iterations[j]);
                j = j + 1;
                assert(out@ =~= before + p.iterations@.subrange(0, j as int));
            }
            proof {
                let s = self.points@.subrange(0, i as int + 1);
                assert(s.drop_last() =~= self.points@.subrange(0, i as int));
                assert(p.iterations@.subrange(0, j as int) =~= p.iterations@);
            }
            i = i + 1;
        }
        assert(self.points@.subrange(0, self.points.len() as int) =~= self.points@);
        out
    }

}

impl<C: Colorizer> FractalRepresentation<C> {
    /// Colors every pixel through the colorizer and `palette`, averaging the
    /// subsample colors of a pixel, and returns the pixels row by row as
    /// 8-bit red, green and blue.
    pub fn colorize<P: ColorPalette>(&self, palette: &mut P) -> (r: Vec<u8>)
        requires
            self.wf(),
            self.colorizer.inv(),
            old(palette).inv(),
            forall|next: P| #[trigger] calibrated(*old(palette), self.colorizer.max_value(), samples_of(self.points@), next)
                ==> forall|i: int| 0 <= i < self.points.len() ==> point_accepted(&self.colorizer, next, #[trigger] self.points@[i]),
        ensures
            r.len() == 3 * self.rendering_settings.resolution.width
                * self.rendering_settings.resolution.height,
            exists|next: P| #[trigger] calibrated(*old(palette), self.colorizer.max_value(), samples_of(self.points@), next)
                && forall|x: int, y: int|
                0 <= x < self.rendering_settings.resolution.width && 0 <= y < self.rendering_settings.resolution.height
                    ==> #[trigger] pixel_ok(
                    &self.colorizer,
                    next,
                    self.points@,
                    r@,
                    self.rendering_settings.resolution.width as int,
                    self.rendering_settings.resolution.height as int,
                    x,
                    y,
                ),
    {
        let ghost start = *palette;
        self.colorizer.setup_palette(palette);
        let ghost mid = *palette;
        palette.prepare(self);
        let ghost next = *palette;
        proof {
            assert(start.max_set(self.colorizer.max_value(), mid) && mid.prepared(samples_of(self.points@), next));
            assert(calibrated(start, self.colorizer.max_value(), samples_of(self.points@), next));
        }
        let w = self.rendering_settings.resolution.width;
        let h = self.rendering_settings.resolution.height;
        let mut image: Vec<u8> = Vec::new();
        let mut y: u32 = 0;
        while y < h
            invariant
                self.wf(),
                self.colorizer.inv(),
                palette.inv(),
                crate::color_palette::same_behaviour(next, *palette),
                forall|i: int| 0 <= i < self.points.len() ==> point_accepted(&self.colorizer, next, #[trigger] self.points@[i]),
                w == self.rendering_settings.resolution.width,
                h == self.rendering_settings.resolution.height,
                y <= h,
                image.len() == 3 * w * y,
                forall|xx: int, yy: int| 0 <= xx < w && 0 <= yy < y
                    ==> #[trigger] pixel_ok(&self.colorizer, next, self.points@, image@, w as int, h as int, xx, yy),
            decreases h - y,
        {
            let mut x: u32 = 0;
            while x < w
                invariant
                    self.wf(),
                    self.colorizer.inv(),
                    palette.inv(),
                    crate::color_palette::same_behaviour(next, *palette),
                    forall|i: int| 0 <= i < self.points.len() ==> point_accepted(&self.colorizer, next, #[trigger] self.points@[i]),
                    w == self.rendering_settings.resolution.width,
                    h == self.rendering_settings.resolution.height,
                    y < h,
                    x <= w,
                    image.len() == 3 * w * y + 3 * x,
                    forall|xx: int, yy: int| 0 <= xx < w && 0 <= yy < y
                        ==> #[trigger] pixel_ok(&self.colorizer, next, self.points@, image@, w as int, h as int, xx, yy),
                    forall|xx: int| 0 <= xx < x
                        ==> #[trigger] pixel_ok(&self.colorizer, next, self.points@, image@, w as int, h as int, xx, y as int),
                decreases w - x,
            {
                let point = self.get_point(x, y);
                let ghost before_palette = *palette;
                proof {
                    lemma_grid_index(x as int, y as int, w as int, h as int);
                    lemma_point_transfer(&self.colorizer, next, before_palette, *point, Color::rgb(0, 0, 0));
                }
                let color = point.get_color(&self.colorizer, palette);
                proof {
                    crate::color_palette::lemma_same_behaviour_flip(next, before_palette);
                    lemma_point_transfer(&self.colorizer, before_palette, next, *point, color);
                    crate::color_palette::lemma_same_behaviour_chain(next, before_palette, *palette);
                }
                let rgb = color.to_rgb();
                let ghost before = image@;
                image.push(rgb[0]);
                image.push(rgb[1]);
                image.push(rgb[2]);
                proof {
                    assert(image@ =~= before + seq![rgb[0], rgb[1], rgb[2]]);
                    assert(image@.subrange(0, before.len() as int) =~= before);
                    lemma_pixel_index(w as int, x as int, y as int);
                    assert(pixel_bytes(image@, w as int, x as int, y as int) =~= seq![rgb[0], rgb[1], rgb[2]]);
                    assert(pixel_bytes(image@, w as int, x as int, y as int) == rgb_bytes(color));
                    assert(point_color_ok(&self.colorizer, next, self.points@[x * h + y], color));
                    assert(pixel_ok(&self.colorizer, next, self.points@, image@, w as int, h as int, x as int, y as int));
                    assert forall|xx: int, yy: int| 0 <= xx < w && 0 <= yy < y
                        implies #[trigger] pixel_ok(&self.colorizer, next, self.points@, image@, w as int, h as int, xx, yy) by {
                        lemma_pixel_before(w as int, xx, yy, x as int, y as int);
                        lemma_pixel_keep(&self.colorizer, next, self.points@, before, image@, w as int, h as int, xx, yy);
                    }
                    assert forall|xx: int| 0 <= xx < x + 1
                        implies #[trigger] pixel_ok(&self.colorizer, next, self.points@, image@, w as int, h as int, xx, y as int) by {
                        if xx < x {
                            lemma_pixel_before(w as int, xx, y as int, x as int, y as int);
                            lemma_pixel_keep(&self.colorizer, next, self.points@, before, image@, w as int, h as int, xx, y as int);
                        }
                    }
                }
                x = x + 1;
            }
            assert(3 * w * y + 3 * w == 3 * w * (y + 1)) by (nonlinear_arith);
            y = y + 1;
        }
        image
    }
}

/// A pixel already written keeps its bytes when more bytes are appended.
proof fn lemma_pixel_keep<C: Colorizer, P: ColorPalette>(
    colorizer: &C,
    palette: P,
    points: Seq<FractalPoint>,
    before: Seq<u8>,
    after: Seq<u8>,
    w: int,
    h: int,
    x: int,
    y: int,
)
    requires
        pixel_ok(colorizer, palette, points, before, w, h, x, y),
        before.len() <= after.len(),
        after.subrange(0, before.len() as int) == before,
        0 <= 3 * (y * w + x),
        3 * (y * w + x) + 3 <= before.len(),
    ensures
        pixel_ok(colorizer, palette, points, after, w, h, x, y),
{
    let c = choose|c: Color| #[trigger] point_color_ok(colorizer, palette, points[x * h + y], c) && pixel_bytes(before, w, x, y) == rgb_bytes(c);
    assert(pixel_bytes(after, w, x, y) =~= pixel_bytes(before, w, x, y));
}

proof fn lemma_pixel_index(w: int, x: int, y: int)
    ensures
        3 * (y * w + x) == 3 * w * y + 3 * x,
{
    assert(3 * (y * w + x) == 3 * w * y + 3 * x) by (nonlinear_arith);
}

proof fn lemma_pixel_before(w: int, xx: int, yy: int, x: int, y: int)
    requires
        0 <= xx < w,
        0 <= yy <= y,
        yy < y || xx < x,
        0 <= x,
    ensures
        0 <= 3 * (yy * w + xx),
        3 * (yy * w + xx) + 3 <= 3 * w * y + 3 * x,
{
    assert(0 <= yy * w) by (nonlinear_arith)
        requires
            0 <= yy,
            0 <= w,
    ;
    if yy < y {
        assert(yy * w + xx + 1 <= (yy + 1) * w) by (nonlinear_arith)
            requires
                xx < w,
        ;
        assert((yy + 1) * w <= y * w) by (nonlinear_arith)
            requires
                yy + 1 <= y,
                0 <= w,
        ;
        assert(3 * (yy * w + xx) + 3 <= 3 * w * y + 3 * x) by (nonlinear_arith)
            requires
                yy * w + xx + 1 <= y * w,
                0 <= x,
        ;
    } else {
        assert(3 * (yy * w + xx) + 3 <= 3 * w * y + 3 * x) by (nonlinear_arith)
            requires
                yy == y,
                xx + 1 <= x,
        ;
    }
}

proof fn lemma_grid_index(x: int, y: int, w: int, h: int)
    requires
        0 <= x < w,
        0 <= y < h,
    ensures
        0 <= x * h + y < w * h,
{
    assert(x * h + y < (x + 1) * h) by (nonlinear_arith)
        requires
            y < h,
    ;
    assert((x + 1) * h <= w * h) by (nonlinear_arith)
        requires
            x + 1 <= w,
            0 <= h,
    ;
    assert(0 <= x * h) by (nonlinear_arith)
        requires
            0 <= x,
            0 <= h,
    ;
}

} // verus!
