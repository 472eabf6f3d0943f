//! Escape-time fractal rendering core: fixed-point interpolation, keyframe
//! timelines, color palettes, the Mandelbrot kernel and the animation driver.

pub mod animation;
pub mod color;
pub mod color_palette;
pub mod complex;
pub mod fractal;
pub mod interpolation;
pub mod interpolation_list;
pub mod mandelbrot;
pub mod rendering_settings;
