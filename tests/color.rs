use fractal_bakery::color::Color;
use fractal_bakery::interpolation::{Interpolation, UNIT};

fn rgb(red: f64, green: f64, blue: f64) -> Color {
    Color { red: (red * 1e6).round() as i64, green: (green * 1e6).round() as i64, blue: (blue * 1e6).round() as i64 }
}

#[test]
fn color_basics() {
    let out_of_bounds_color = Color::new(-UNIT, 600_000, 1_240_000);

    assert_eq!(out_of_bounds_color, rgb(0.0, 0.6, 1.0));

    assert_eq!(Color::default(), Color::white());
}

#[test]
fn mixing() {
    assert_eq!(Color::black().mix(&Color::white()), rgb(0.5, 0.5, 0.5));

    assert_eq!(Color::blue().mix(&Color::white()), rgb(0.5, 0.5, 1.0));

    assert_eq!(Color::blue().mix(&Color::white()), Color::white().mix(&Color::blue()));

    assert_eq!(Color::red().mix(&Color::green()), rgb(0.5, 0.5, 0.0));

    let red_and_green = Color::red().mix(&Color::green());
    assert_eq!(Color::yellow().mix(&red_and_green), rgb(0.75, 0.75, 0.0));
    assert_eq!(Color::yellow().mix(&red_and_green), red_and_green.mix(&Color::yellow()));

    let colors = vec![Color::red(), Color::green(), Color::blue(), Color::black()];
    assert_eq!(Color::average(&colors), rgb(0.25, 0.25, 0.25));
    assert_eq!(Color::average(&colors), Color::average_iterator(colors.clone()));
}

#[test]
fn interpolation() {
    let mixture = Interpolation::LINEAR.interpolate(&Color::red(), 250_000, &Color::green());
    assert_eq!(mixture, rgb(0.75, 0.25, 0.0));

    let mixture = Interpolation::CUBIC.interpolate(&Color::red(), 200_000, &Color::green());
    assert_eq!(mixture, rgb(0.896, 0.104, 0.0));
}

#[test]
fn channels_stay_in_range() {
    let c = Color::new(i64::MIN, i64::MAX, 500_000);
    assert_eq!(c, rgb(0.0, 1.0, 0.5));
    let m = Color::magenta().mix(&Color::cyan());
    assert_eq!(m, rgb(0.5, 0.5, 1.0));
    for r in [0i64, 1, 499_999, 500_000, 999_999, UNIT] {
        for mode in [Interpolation::LINEAR, Interpolation::CUBIC, Interpolation::NEAREST, Interpolation::EASING(-900_000), Interpolation::EASING(5_000_000)] {
            let c = mode.interpolate(&Color::white(), r, &Color::black());
            for ch in [c.red, c.green, c.blue] {
                assert!((0..=UNIT).contains(&ch));
            }
        }
    }
}

#[test]
fn mixing_is_symmetric_and_idempotent() {
    let a = Color::new(123_457, 999_999, 0);
    let b = Color::new(1, 2, 3);
    assert_eq!(a.mix(&b), b.mix(&a));
    assert_eq!(a.mix(&a), a);
    assert_eq!(a.mix(&b), Color::new(61_729, 500_000, 1));
}

#[test]
fn rgb_bytes() {
    assert_eq!(Color::white().to_rgb(), [255, 255, 255]);
    assert_eq!(rgb(0.5, 0.0, 0.1).to_rgb(), [127, 0, 25]);
}
