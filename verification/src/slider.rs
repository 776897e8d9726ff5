//! Direction and position of a slider, taken from quantized positions so that
//! jitter of a single unit does not count as motion.

use vstd::prelude::*;
use vstd::arithmetic::div_mod::{lemma_div_basics, lemma_div_is_ordered};

verus! {

/// Lowest position of the slider's active range.
pub const SLIDER_MIN: i32 = 254;

/// Highest position of the slider's active range.
pub const SLIDER_MAX: i32 = 288;

/// Positions are divided by this before they are compared.
pub const SENSITIVITY: i32 = 6;

/// A position divided by the sensitivity, the remainder dropped.
pub open spec fn quantized(position: int, divisor: int) -> int
    recommends
        divisor > 0,
{
    if position >= 0 {
        position / divisor
    } else {
        -((-position) / divisor)
    }
}

/// `1` where the quantized position rose, `-1` where it fell, `0` where it
/// stayed.
pub open spec fn step_direction(previous: int, current: int) -> int {
    if current > previous {
        1
    } else if current < previous {
        -1
    } else {
        0
    }
}

/// A position moved into the range `min..=max`.
pub open spec fn clamped(position: int, min: int, max: int) -> int {
    if position < min {
        min
    } else if position > max {
        max
    } else {
        position
    }
}

/// The slider's configuration and the quantized position seen last.
pub struct SliderModel {
    pub min: int,
    pub max: int,
    pub divisor: int,
    pub previous: int,
}

impl SliderModel {
    /// The divisor is positive, the range is not empty and its width fits
    /// 32 bits.
    pub open spec fn wf(self) -> bool {
        &&& self.divisor >= 1
        &&& self.min <= self.max
        &&& self.max - self.min <= i32::MAX
    }

    /// The sensor is touched and the position lies in the active range.
    pub open spec fn active(self, position: int, touched: bool) -> bool {
        touched && self.min <= position <= self.max
    }

    /// Direction of motion reported for a sample: that of the quantized
    /// position against the one before while the slider is active, else `0`.
    pub open spec fn direction(self, position: int, touched: bool) -> int {
        if self.active(position, touched) {
            step_direction(self.previous, quantized(position, self.divisor))
        } else {
            0
        }
    }

    /// Position reported for a sample while the slider is active: counted
    /// from the upper end of the range, in units of the divisor.
    pub open spec fn absolute(self, position: int, touched: bool) -> Option<int> {
        if self.active(position, touched) {
            Some((self.max - clamped(position, self.min, self.max)) / self.divisor)
        } else {
            None
        }
    }

    /// The slider after a sample: its quantized position is remembered,
    /// whether or not the slider was active.
    pub open spec fn after(self, position: int) -> SliderModel {
        SliderModel { previous: quantized(position, self.divisor), ..self }
    }
}

/// Direction of the slider between two positions with the standard range and
/// sensitivity: `0` unless the sensor is touched and `current` lies in the
/// active range.
pub fn get_slider_dir(prev: i32, current: i32, is_touched: bool) -> (key: i32)
    ensures
        key == (SliderModel {
            min: SLIDER_MIN as int,
            max: SLIDER_MAX as int,
            divisor: SENSITIVITY as int,
            previous: quantized(prev as int, SENSITIVITY as int),
        }).direction(current as int, is_touched),
        -1 <= key <= 1,
{
    let prev_s: i32 = prev / SENSITIVITY;
    let current_s: i32 = current / SENSITIVITY;

    let key: i32 = if !is_touched {
        0
    } else if SLIDER_MIN <= current && current <= SLIDER_MAX {
        if current_s > prev_s {
            1
        } else if current_s < prev_s {
            -1
        } else {
            0
        }
    } else {
        0
    };

    key
}

/// What the tracker reports for one sample.
#[derive(Debug, Clone, Copy, PartialEq, Eq)]
pub struct SliderReading {
    /// `1`, `-1` or `0`.
    pub direction: i32,
    /// Present while the sensor is touched within the active range.
    pub position: Option<i32>,
}

/// Tracks the slider from sample to sample.
pub struct SliderTracker {
    min: i32,
    max: i32,
    divisor: i32,
    previous: i32,
}

impl View for SliderTracker {
    type V = SliderModel;

    closed spec fn view(&self) -> SliderModel {
        SliderModel {
            min: self.min as int,
            max: self.max as int,
            divisor: self.divisor as int,
            previous: self.previous as int,
        }
    }
}

impl SliderTracker {
    /// The tracker's configuration is well formed.
    pub open spec fn wf(&self) -> bool {
        self@.wf()
    }

    /// A tracker for the active range `min..=max` that divides positions by
    /// `divisor`, with `0` as the quantized position seen last. There is none
    /// for a divisor below one, an empty range or one wider than 32 bits hold.
    pub fn new(min: i32, max: i32, divisor: i32) -> (r: Option<SliderTracker>)
        ensures
            r is Some <==> (SliderModel {
                min: min as int,
                max: max as int,
                divisor: divisor as int,
                previous: 0,
            }).wf(),
            r matches Some(t) ==> t.wf() && t@ == (SliderModel {
                min: min as int,
                max: max as int,
                divisor: divisor as int,
                previous: 0,
            }),
    {
        if divisor < 1 || min > max || max as i64 - min as i64 > i32::MAX as i64 {
            None
        } else {
            Some(SliderTracker { min, max, divisor, previous: 0 })
        }
    }

    /// The tracker with the standard range and sensitivity.
    pub fn standard() -> (t: SliderTracker)
        ensures
            t.wf(),
            t@ == (SliderModel {
                min: SLIDER_MIN as int,
                max: SLIDER_MAX as int,
                divisor: SENSITIVITY as int,
                previous: 0,
            }),
    {
        SliderTracker { min: SLIDER_MIN, max: SLIDER_MAX, divisor: SENSITIVITY, previous: 0 }
    }

    /// Forgets the position seen last.
    pub fn reset(&mut self)
        requires
            old(self).wf(),
        ensures
            final(self).wf(),
            final(self)@ == (SliderModel { previous: 0, ..old(self)@ }),
    {
        self.previous = 0;
    }

    /// Takes in one sample and reports the direction of motion and, while the
    /// slider is active, the position.
    pub fn track(&mut self, position: i32, touched: bool) -> (reading: SliderReading)
        requires
            old(self).wf(),
        ensures
            final(self).wf(),
            final(self)@ == old(self)@.after(position as int),
            reading.direction == old(self)@.direction(position as int, touched),
            match reading.position {
                Some(p) => old(self)@.absolute(position as int, touched) == Some(p as int),
                None => old(self)@.absolute(position as int, touched) is None,
            },
            -1 <= reading.direction <= 1,
            !touched ==> reading.direction == 0 && reading.position is None,
    {
        let current: i32 = position / self.divisor;
        let active: bool = touched && self.min <= position && position <= self.max;
        let reading = if active {
            let direction: i32 = if current > self.previous {
                1
            } else if current < self.previous {
                -1
            } else {
                0
            };
            SliderReading { direction, position: Some((self.max - position) / self.divisor) }
        } else {
            SliderReading { direction: 0, position: None }
        };
        self.previous = current;
        reading
    }
}

/// Without touch nothing is reported, wherever the position went.
pub proof fn lemma_untouched_is_still(m: SliderModel, position: int)
    ensures
        m.direction(position, false) == 0,
        m.absolute(position, false) is None,
{
}

/// Between two samples in a row the direction follows the quantized
/// positions alone: up where the second is higher, down where it is lower,
/// none where they are equal, however far the raw positions are apart.
pub proof fn lemma_direction_follows_quantized(m: SliderModel, first: int, second: int)
    requires
        m.wf(),
        m.min <= second <= m.max,
    ensures
        m.after(first).direction(second, true) == step_direction(
            quantized(first, m.divisor),
            quantized(second, m.divisor),
        ),
        quantized(first, m.divisor) == quantized(second, m.divisor)
            ==> m.after(first).direction(second, true) == 0,
        m.after(first).direction(second, false) == 0,
{
}

/// The reported position runs against the raw one: it is `0` at the upper
/// end of the range and never grows when the raw position does.
pub proof fn lemma_position_is_inverted(m: SliderModel, lower: int, higher: int)
    requires
        m.wf(),
        m.min <= lower <= higher <= m.max,
    ensures
        m.absolute(m.max, true) == Some(0int),
        m.absolute(higher, true)->0 <= m.absolute(lower, true)->0,
        0 <= m.absolute(higher, true)->0,
{
    lemma_div_is_ordered(m.max - higher, m.max - lower, m.divisor);
    lemma_div_is_ordered(0, m.max - higher, m.divisor);
    lemma_div_basics(m.divisor);
}

} // verus!
