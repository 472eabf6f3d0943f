use fractal_bakery::animation::MandelbrotAnimation;
use fractal_bakery::color::Color;
use fractal_bakery::color_palette::{KeyColor, RepeatingColorPalette};
use fractal_bakery::complex::{Complex, COORD_ONE};
use fractal_bakery::fractal::FractalPoint;
use fractal_bakery::interpolation::{Interpolation, UNIT};
use fractal_bakery::interpolation_list::InterpolationList;
use fractal_bakery::mandelbrot::Mandelbrot;
use fractal_bakery::rendering_settings::{MultiSampling, RenderingSettings, Resolution};

fn no_compensation(_: i128) -> u32 {
    1
}

#[test]
fn samples_per_mode() {
    assert_eq!((MultiSampling::NONE.samples_x(), MultiSampling::NONE.samples_y()), (1, 1));
    assert_eq!((MultiSampling::X2.samples_x(), MultiSampling::X2.samples_y()), (2, 1));
    assert_eq!((MultiSampling::X4.samples_x(), MultiSampling::X4.samples_y()), (2, 2));
}

#[test]
fn interior_point_takes_the_override_color() {
    let set_color = Color::new(100_000, 50_000, 600_000);
    let config = Mandelbrot::new(Complex::new(-COORD_ONE / 2, 0), 0, 10_000, false, set_color);
    assert_eq!(config.escape(0, 0), (10_000, 0));
    let settings = RenderingSettings { resolution: Resolution { width: 4, height: 4 }, sampling: MultiSampling::NONE };
    assert_eq!(Mandelbrot::pixel_step(&settings, COORD_ONE), (COORD_ONE / 2) as i128);
    let rep = config.calculate_with_scale(&settings, COORD_ONE, &no_compensation);
    // pixel (3, 2) maps to the origin
    assert_eq!(rep.get_point(3, 2).iter(), &vec![10_000 * UNIT]);
    let mut palette = RepeatingColorPalette::new(
        Interpolation::LINEAR,
        vec![KeyColor::new(0, Color::red()), KeyColor::new(10 * UNIT, Color::blue())],
    );
    assert_eq!(config.get_color(10_000 * UNIT, &mut palette), set_color);
    let image = rep.colorize(&mut palette);
    assert_eq!(image.len(), 4 * 4 * 3);
    let at = (2 * 4 + 3) * 3;
    assert_eq!(&image[at..at + 3], &set_color.to_rgb());
}

#[test]
fn escape_counts() {
    let config = Mandelbrot::new(Complex::new(0, 0), 0, 100, false, Color::black());
    // c = 1: 0, 1, 2 -> |z|^2 = 4 reaches the radius after two steps
    let (n, m) = config.escape(COORD_ONE, 0);
    assert_eq!(n, 2);
    assert_eq!(m, 4 * COORD_ONE as i128);
    // c = -2: |z|^2 = 4 after the first step
    assert_eq!(config.escape(-2 * COORD_ONE, 0).0, 1);
    let smooth = Mandelbrot::new(Complex::new(0, 0), 0, 100, true, Color::black());
    // with radius 8: 0, 1, 2, 5, 26
    assert_eq!(smooth.escape(COORD_ONE, 0), (4, 676 * COORD_ONE as i128));
}

#[test]
fn smoothing_grows_with_steps() {
    let smooth = Mandelbrot::new(Complex::new(0, 0), 0, 100, true, Color::black());
    let comp = |m: i128| -> u32 {
        let r2 = m as f64 / COORD_ONE as f64;
        (((8f64.ln() * 0.5 * r2.ln()).ln() / std::f64::consts::LN_2) * 1e6) as u32
    };
    let a = smooth.dwell(4, 676 * COORD_ONE as i128, &comp);
    let b = smooth.dwell(5, 676 * COORD_ONE as i128, &comp);
    assert!(a < b);
    assert_eq!(b - a, UNIT);
    // the cap is recorded verbatim
    assert_eq!(smooth.dwell(100, 0, &comp), 100 * UNIT);
    let plain = Mandelbrot::new(Complex::new(0, 0), 0, 100, false, Color::black());
    assert_eq!(plain.dwell(7, 999, &comp), 7 * UNIT);
}

#[test]
fn supersampling_records_every_subsample() {
    let config = Mandelbrot::new(Complex::new(0, 0), 0, 50, false, Color::white());
    let settings = RenderingSettings { resolution: Resolution { width: 3, height: 2 }, sampling: MultiSampling::X4 };
    let rep = config.calculate_with_scale(&settings, COORD_ONE, &no_compensation);
    assert_eq!(rep.points.len(), 6);
    for x in 0..3 {
        for y in 0..2 {
            assert_eq!(rep.get_point(x, y).iter().len(), 4);
        }
    }
    assert_eq!(rep.iteration_iter().len(), 24);
    // the scale of the configured zoom exponent gives the same grid
    let same = config.calculate(&settings, &|_zoom: i64| COORD_ONE, &no_compensation);
    assert_eq!(same.iteration_iter(), rep.iteration_iter());
    // a zoom scale below one counts as one
    let tiny = config.calculate(&settings, &|_zoom: i64| -5, &no_compensation);
    let one = config.calculate_with_scale(&settings, 1, &no_compensation);
    assert_eq!(tiny.iteration_iter(), one.iteration_iter());
}

#[test]
fn point_color_averages_samples() {
    let config = Mandelbrot::new(Complex::new(0, 0), 0, 10, false, Color::white());
    let mut palette = RepeatingColorPalette::new(
        Interpolation::LINEAR,
        vec![KeyColor::new(0, Color::black()), KeyColor::new(100 * UNIT, Color::black())],
    );
    let mut point = FractalPoint::new();
    point.add_iteration(10 * UNIT);
    point.add_iteration(3 * UNIT);
    assert_eq!(point.get_color(&config, &mut palette), Color::new(500_000, 500_000, 500_000));
    assert_eq!(FractalPoint::new().get_color(&config, &mut palette), Color::black());
}

#[test]
fn animation_frames() {
    let mut center = InterpolationList::new(20, Complex::new(-COORD_ONE / 2, 0));
    center.insert(Interpolation::LINEAR, 80, Complex::new(COORD_ONE / 2, COORD_ONE));
    let zoom = InterpolationList::new(0, 0i64);
    let mut cap = InterpolationList::new(0, 100u64);
    cap.insert(Interpolation::LINEAR, 100, 200);
    let smoothing = InterpolationList::new(0, true);
    let set_color = InterpolationList::new(0, Color::black());
    let mut animation = MandelbrotAnimation::new(3, center, zoom, cap, smoothing, set_color);
    let second = animation.get_configuration(2).unwrap();
    assert_eq!(second.max_iterations, 102);
    assert_eq!(second.center, Complex::new(-COORD_ONE / 2, 0));
    assert!(animation.get_configuration(4).is_none());
    let mut frames = animation.into_iter();
    let numbers: Vec<u64> = std::iter::from_fn(|| frames.next()).map(|f| f.number).collect();
    assert_eq!(numbers, vec![1, 2, 3]);
}

#[test]
fn empty_resolution_gives_an_empty_grid() {
    let config = Mandelbrot::new(Complex::new(0, 0), 0, 10, false, Color::white());
    let settings = RenderingSettings { resolution: Resolution { width: 0, height: 5 }, sampling: MultiSampling::X2 };
    let rep = config.calculate_with_scale(&settings, COORD_ONE, &no_compensation);
    assert!(rep.points.is_empty());
    let mut palette = RepeatingColorPalette::new(Interpolation::LINEAR, vec![KeyColor::new(0, Color::red())]);
    assert!(rep.colorize(&mut palette).is_empty());
}

#[test]
fn zero_cap_records_zero_everywhere() {
    let config = Mandelbrot::new(Complex::new(0, 0), 0, 0, true, Color::white());
    assert_eq!(config.escape(COORD_ONE, COORD_ONE), (0, 0));
    let settings = RenderingSettings { resolution: Resolution { width: 2, height: 1 }, sampling: MultiSampling::NONE };
    let rep = config.calculate_with_scale(&settings, COORD_ONE, &no_compensation);
    assert_eq!(rep.iteration_iter(), vec![0, 0]);
}

#[test]
fn escaped_samples_stay_below_the_cap() {
    let smooth = Mandelbrot::new(Complex::new(0, 0), 0, 5, true, Color::black());
    // escaped one step before the cap, with the smallest term
    assert_eq!(smooth.dwell(4, 0, &no_compensation), 5 * UNIT - 1);
    assert_eq!(smooth.dwell(5, 0, &no_compensation), 5 * UNIT);
}

#[test]
fn palette_colors_reach_the_pixels() {
    // samples below the cap take the palette's color, averaged per pixel
    let config = Mandelbrot::new(Complex::new(0, 0), 0, 100, false, Color::black());
    let settings = RenderingSettings { resolution: Resolution { width: 1, height: 1 }, sampling: MultiSampling::X2 };
    let mut rep = fractal_bakery::fractal::FractalRepresentation::new(config, settings);
    rep.points[0].add_iteration(0);
    rep.points[0].add_iteration(100 * UNIT);
    let mut palette = RepeatingColorPalette::new(
        Interpolation::LINEAR,
        vec![KeyColor::new(0, Color::white()), KeyColor::new(10 * UNIT, Color::white())],
    );
    assert_eq!(rep.colorize(&mut palette), vec![127, 127, 127]);
}
