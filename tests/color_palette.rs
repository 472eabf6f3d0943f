use fractal_bakery::color::Color;
use fractal_bakery::color_palette::{
    ExponentialColorPalette, HistogramColorPalette, KeyColor, LogarithmicColorPalette,
    RepeatingColorPalette, ScalingColorPalette,
};
use fractal_bakery::fractal::FractalRepresentation;
use fractal_bakery::interpolation::{Interpolation, UNIT};
use fractal_bakery::mandelbrot::Mandelbrot;
use fractal_bakery::complex::Complex;
use fractal_bakery::rendering_settings::{MultiSampling, RenderingSettings, Resolution};

fn micro(x: f64) -> i64 {
    (x * 1e6).round() as i64
}

#[test]
fn color_palette_basics_repeating() {
    let key_colors = vec![
        KeyColor::new(micro(0.0), Color::red()),
        KeyColor::new(micro(20.0), Color::blue()),
        KeyColor::new(micro(10.0), Color::green()),
    ];

    let mut color_palette = RepeatingColorPalette::new(Interpolation::CUBIC, key_colors);

    assert_eq!(color_palette.get_color(micro(-0.02)), Color::red());
    assert_eq!(color_palette.get_color(micro(5.0)).blue, 0);
    assert_eq!(color_palette.get_color(micro(10.0)), Color::green());
    assert_eq!(color_palette.get_color(micro(20.01)), Color::red());
    assert_eq!(color_palette.get_color(micro(20.0)), Color::blue());

    // Check outside range
    let key_colors = vec![
        KeyColor::new(micro(5.0), Color::red()),
        KeyColor::new(micro(20.0), Color::blue()),
        KeyColor::new(micro(10.0), Color::green()),
    ];

    let mut color_palette = RepeatingColorPalette::new(Interpolation::CUBIC, key_colors);

    assert_eq!(color_palette.get_color(micro(3.0)), Color::red());
}

#[test]
fn color_palette_basics_scaling() {
    let key_colors = vec![
        KeyColor::new(micro(0.0), Color::red()),
        KeyColor::new(micro(50.0), Color::green()),
        KeyColor::new(micro(100.0), Color::blue()),
    ];

    let mut color_palette = ScalingColorPalette::new(Interpolation::LINEAR, key_colors);
    color_palette.set_max(200);

    assert_eq!(color_palette.get_color(micro(100.0)), Color::green());
    assert_eq!(color_palette.get_color(micro(150.0)).red, 0);
    assert_eq!(color_palette.get_color(micro(250.0)), Color::blue());
    assert_eq!(color_palette.get_color(micro(-100.0)), Color::red());

    color_palette.set_max(300);

    assert_eq!(color_palette.get_color(micro(150.0)), Color::green());
    assert_eq!(color_palette.get_color(micro(175.0)).red, 0);
    assert_eq!(color_palette.get_color(micro(350.0)), Color::blue());
    assert_eq!(color_palette.get_color(micro(-15.0)), Color::red());

    // check out of range
    let key_colors = vec![
        KeyColor::new(micro(20.0), Color::red()),
        KeyColor::new(micro(50.0), Color::green()),
        KeyColor::new(micro(100.0), Color::blue()),
    ];

    let mut color_palette = ScalingColorPalette::new(Interpolation::LINEAR, key_colors);
    color_palette.set_max(200);

    assert_eq!(color_palette.get_color(micro(10.0)), Color::red());
    assert_eq!(color_palette.get_color(micro(40.0)), Color::red());
    assert!(color_palette.get_color(micro(40.1)).red < UNIT);
}

#[test]
fn repeating_palette_wraps_around() {
    let key_colors = vec![
        KeyColor::new(0, Color::red()),
        KeyColor::new(10 * UNIT, Color::green()),
        KeyColor::new(20 * UNIT, Color::blue()),
    ];
    let mut palette = RepeatingColorPalette::new(Interpolation::CUBIC, key_colors);
    assert_eq!(palette.get_color(micro(-0.02)), Color::red());
    assert_eq!(palette.get_color(10 * UNIT), Color::green());
    assert_eq!(palette.get_color(micro(20.01)), Color::red());
    // one lap later the same colors come back
    assert_eq!(palette.get_color(micro(30.01)), palette.get_color(micro(10.0)));
}

#[test]
fn duplicate_key_positions_keep_the_first_color() {
    let key_colors = vec![
        KeyColor::new(0, Color::red()),
        KeyColor::new(10 * UNIT, Color::green()),
        KeyColor::new(10 * UNIT, Color::blue()),
    ];
    let mut palette = RepeatingColorPalette::new(Interpolation::LINEAR, key_colors);
    assert_eq!(palette.get_color(10 * UNIT), Color::green());
}

#[test]
fn logarithmic_and_exponential_take_their_warp() {
    let key_colors = vec![KeyColor::new(0, Color::black()), KeyColor::new(100 * UNIT, Color::white())];
    let mut log = LogarithmicColorPalette::new(Interpolation::LINEAR, key_colors.clone(), 1_500_000);
    assert_eq!(log.span(), 10_000);
    assert_eq!(log.base(), 1_500_000);
    // fractional part 0.25 of the span
    assert_eq!(log.get_color(2_250_000), Color::new(250_000, 250_000, 250_000));
    let mut exp = ExponentialColorPalette::new(Interpolation::LINEAR, key_colors, 2 * UNIT);
    exp.set_max(1000);
    assert_eq!(exp.max_iter(), 1000);
    // 12_501 wraps to 2_500 over a span of 10_000
    assert_eq!(exp.get_color(12_501 * UNIT), Color::new(250_000, 250_000, 250_000));
}

fn histogram_fixture() -> FractalRepresentation<Mandelbrot> {
    let settings = RenderingSettings { resolution: Resolution { width: 2, height: 2 }, sampling: MultiSampling::NONE };
    let config = Mandelbrot::new(Complex::new(0, 0), 0, 4, false, Color::black());
    let mut rep = FractalRepresentation::new(config, settings);
    let values = [0i64, 1_500_000, 1_200_000, 4 * UNIT];
    for (i, v) in values.iter().enumerate() {
        rep.points[i].add_iteration(*v);
    }
    rep
}

#[test]
fn histogram_counts_add_up() {
    let rep = histogram_fixture();
    let key_colors = vec![KeyColor::new(0, Color::black()), KeyColor::new(100 * UNIT, Color::white())];
    let mut palette = HistogramColorPalette::new(Interpolation::LINEAR, key_colors);
    palette.set_max(4);
    palette.prepare(&rep);
    assert_eq!(palette.delta_iterations(), &vec![1, 2, 0, 0]);
    assert_eq!(palette.cumulative_iterations(), &vec![0, 1, 3, 3]);
    assert_eq!(palette.total(), 3);
    assert_eq!(palette.delta_iterations().iter().sum::<u64>(), palette.total());
    assert!(palette.cumulative_iterations().windows(2).all(|w| w[0] <= w[1]));
    // bucket 1, halfway: (1 + 0.5 * 2) / 3 of the way
    assert_eq!(palette.get_color(1_500_000), Color::new(666_600, 666_600, 666_600));
    // before any sample
    assert_eq!(palette.get_color(0), Color::black());
    // past the table
    assert_eq!(palette.get_color(9 * UNIT), Color::white());
}
