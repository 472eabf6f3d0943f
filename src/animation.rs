//! The animation driver: one timeline per configuration field, sampled frame
//! by frame.
use vstd::prelude::*;

use crate::color::Color;
use crate::complex::Complex;
use crate::interpolation_list::InterpolationList;
use crate::mandelbrot::Mandelbrot;

verus! {

/// A source of configurations by frame number.
pub trait FractalAnimation<C> {
    /// The animation is well formed.
    spec fn inv(&self) -> bool;

    /// The configuration of frame `index`, or `None` past the last frame.
    fn get_configuration(&mut self, index: u64) -> (r: Option<C>)
        requires
            old(self).inv(),
        ensures
            final(self).inv(),
    ;
}

/// One frame: its number and its resolved configuration.
#[derive(Clone, Copy, Debug)]
pub struct Frame {
    pub number: u64,
    pub config: Mandelbrot,
}

impl Frame {
    pub fn new(number: u64, config: Mandelbrot) -> (r: Frame)
        ensures
            r.number == number,
            r.config == config,
    {
        Frame { number, config }
    }
}

/// A Mandelbrot animation: a frame count and one timeline per field.
pub struct MandelbrotAnimation {
    frames: u64,
    center: InterpolationList<Complex>,
    zoom_exponent: InterpolationList<i64>,
    max_iterations: InterpolationList<u64>,
    smoothing: InterpolationList<bool>,
    set_color: InterpolationList<Color>,
}

/// The configuration that the timelines give at `index`.
pub open spec fn configuration_at(
    center: Seq<crate::interpolation_list::Keyframe<Complex>>,
    zoom_exponent: Seq<crate::interpolation_list::Keyframe<i64>>,
    max_iterations: Seq<crate::interpolation_list::Keyframe<u64>>,
    smoothing: Seq<crate::interpolation_list::Keyframe<bool>>,
    set_color: Seq<crate::interpolation_list::Keyframe<Color>>,
    index: int,
) -> Mandelbrot {
    Mandelbrot {
        center: crate::interpolation_list::value_at(center, index),
        zoom_exponent: crate::interpolation_list::value_at(zoom_exponent, index),
        max_iterations: crate::interpolation_list::value_at(max_iterations, index),
        smoothing: crate::interpolation_list::value_at(smoothing, index),
        set_color: crate::interpolation_list::value_at(set_color, index),
    }
}

impl MandelbrotAnimation {
    pub closed spec fn wf(&self) -> bool {
        &&& self.center.wf()
        &&& self.zoom_exponent.wf()
        &&& self.max_iterations.wf()
        &&& self.smoothing.wf()
        &&& self.set_color.wf()
    }

    pub closed spec fn spec_frames(&self) -> int {
        self.frames as int
    }

    /// The configuration of frame `index`, which exists up to the frame count.
    pub closed spec fn spec_configuration(&self, index: int) -> Option<Mandelbrot> {
        if index > self.frames {
            None
        } else {
            Some(
                configuration_at(
                    self.center@,
                    self.zoom_exponent@,
                    self.max_iterations@,
                    self.smoothing@,
                    self.set_color@,
                    index,
                ),
            )
        }
    }

    pub fn new(
        frames: u64,
        center: InterpolationList<Complex>,
        zoom_exponent: InterpolationList<i64>,
        max_iterations: InterpolationList<u64>,
        smoothing: InterpolationList<bool>,
        set_color: InterpolationList<Color>,
    ) -> (r: Self)
        requires
            center.wf(),
            zoom_exponent.wf(),
            max_iterations.wf(),
            smoothing.wf(),
            set_color.wf(),
        ensures
            r.wf(),
            r.spec_frames() == frames,
            forall|i: int| i <= frames ==> r.spec_configuration(i) == Some(
                configuration_at(center@, zoom_exponent@, max_iterations@, smoothing@, set_color@, i),
            ),
            forall|i: int| i > frames ==> r.spec_configuration(i).is_none(),
    {
        MandelbrotAnimation { frames, center, zoom_exponent, max_iterations, smoothing, set_color }
    }

    /// The configuration of frame `index`: `None` past the frame count, else
    /// every timeline sampled at `index`.
    pub fn get_configuration(&mut self, index: u64) -> (r: Option<Mandelbrot>)
        requires
            old(self).wf(),
        ensures
            final(self).wf(),
            forall|i: int| #[trigger] final(self).spec_configuration(i) == old(self).spec_configuration(i),
            final(self).spec_frames() == old(self).spec_frames(),
            r == old(self).spec_configuration(index as int),
    {
        if index > self.frames {
            None
        } else {
            let center = self.center.get_buffered(index);
            let zoom_exponent = self.zoom_exponent.get_buffered(index);
            let max_iterations = self.max_iterations.get_buffered(index);
            let smoothing = self.smoothing.get_buffered(index);
            let set_color = self.set_color.get_buffered(index);
            Some(Mandelbrot::new(center, zoom_exponent, max_iterations, smoothing, set_color))
        }
    }

    /// A sequence of the frames from the first.
    pub fn into_iter(self) -> (r: AnimationIterator)
        requires
            self.wf(),
        ensures
            r.wf(),
            r.spec_counter() == 0,
            forall|i: int| #[trigger] r.spec_animation().spec_configuration(i) == self.spec_configuration(i),
    {
        AnimationIterator::new(self)
    }
}

impl FractalAnimation<Mandelbrot> for MandelbrotAnimation {
    closed spec fn inv(&self) -> bool {
        self.wf()
    }

    fn get_configuration(&mut self, index: u64) -> (r: Option<Mandelbrot>) {
        MandelbrotAnimation::get_configuration(self, index)
    }
}

/// Frames one after the other, numbered from 1, until the animation ends.
pub struct AnimationIterator {
    counter: u64,
    animation: MandelbrotAnimation,
}

impl AnimationIterator {
    pub closed spec fn wf(&self) -> bool {
        self.animation.wf()
    }

    pub closed spec fn spec_counter(&self) -> int {
        self.counter as int
    }

    pub closed spec fn spec_animation(&self) -> MandelbrotAnimation {
        self.animation
    }

    pub fn new(animation: MandelbrotAnimation) -> (r: Self)
        requires
            animation.wf(),
        ensures
            r.wf(),
            r.spec_counter() == 0,
            r.spec_animation() == animation,
    {
        AnimationIterator { counter: 0, animation }
    }

    /// The next frame: the one after the last number handed out, while the
    /// animation has one.
    pub fn next(&mut self) -> (r: Option<Frame>)
        requires
            old(self).wf(),
        ensures
            final(self).wf(),
            forall|i: int| #[trigger] final(self).spec_animation().spec_configuration(i)
                == old(self).spec_animation().spec_configuration(i),
            old(self).spec_counter() < u64::MAX ==> {
                &&& final(self).spec_counter() == old(self).spec_counter() + 1
                &&& match old(self).spec_animation().spec_configuration(old(self).spec_counter() + 1) {
                    Some(c) => r == Some(Frame { number: (old(self).spec_counter() + 1) as u64, config: c }),
                    None => r.is_none(),
                }
            },
            old(self).spec_counter() == u64::MAX ==> r.is_none(),
    {
        if self.counter == u64::MAX {
            return None;
        }
        self.counter = self.counter + 1;
        match self.animation.get_configuration(self.counter) {
            Some(config) => Some(Frame::new(self.counter, config)),
            None => None,
        }
    }
}

} // verus!
