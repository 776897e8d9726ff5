//! The whole path of a sample: smoothing, debouncing, classification, slider
//! tracking and de-duplication, one sample in and at most one event out.

use vstd::prelude::*;
use crate::dedup::{passes, Dedup};
use crate::keycode::{standard_table, standard_zones};
use crate::keystate::{KeyState, KeyStateMachine};
use crate::slider::{SliderModel, SliderReading, SliderTracker, SENSITIVITY, SLIDER_MAX, SLIDER_MIN};
use crate::smoother::{constant_window, lemma_mean_bounds, mean, shifted, Smoother};
use crate::zones::{
    hit, lemma_after_wf, lemma_fires_on_required_hit, lemma_zone_is_unique, zeros,
    ClassifierModel, Gate, Reading, Symbol, ZoneClassifier,
};

verus! {

/// Window of the smoother in the standard deployment.
pub const STANDARD_WINDOW: usize = 20;

/// What a tick hands to the consumer.
#[derive(Debug, Clone, Copy, PartialEq, Eq)]
pub enum Event {
    /// A button code.
    Button(Symbol),
    /// The slider moved: `direction` is `1` or `-1`, `position` the place it
    /// is at now.
    Slider { direction: i32, position: i32 },
}

impl Event {
    /// The key an event is delivered as: a button as itself, slider motion
    /// upwards as `Left` and downwards as `Right`.
    pub open spec fn key_of(self) -> Symbol {
        match self {
            Event::Button(symbol) => symbol,
            Event::Slider { direction, position } => if direction > 0 {
                Symbol::Left
            } else {
                Symbol::Right
            },
        }
    }

    /// The key an event is delivered as.
    pub fn key(&self) -> (symbol: Symbol)
        ensures
            symbol == self.key_of(),
    {
        match self {
            Event::Button(symbol) => *symbol,
            Event::Slider { direction, position: _ } => if *direction > 0 {
                Symbol::Left
            } else {
                Symbol::Right
            },
        }
    }
}

/// The event of a tick: slider motion where there is any, else the button
/// code that passed de-duplication.
pub open spec fn event_of(
    direction: int,
    position: Option<int>,
    button: Option<Symbol>,
) -> Option<Event> {
    if direction != 0 && position is Some {
        Some(Event::Slider { direction: direction as i32, position: position->0 as i32 })
    } else {
        match button {
            Some(symbol) => Some(Event::Button(symbol)),
            None => None,
        }
    }
}

/// The state of all stages together.
pub struct PipelineModel {
    /// The smoother's window, newest sample first.
    pub window: Seq<i32>,
    pub keys: KeyStateMachine,
    pub classifier: ClassifierModel,
    pub slider: SliderModel,
    /// The classifier's code on the tick before.
    pub last: Option<Symbol>,
    /// Whether classifier and slider see the smoothed value or the raw one.
    pub classify_smoothed: bool,
}

impl PipelineModel {
    /// The window holds a sample, and classifier and slider are well formed.
    pub open spec fn wf(self) -> bool {
        &&& self.window.len() >= 1
        &&& self.classifier.wf()
        &&& self.slider.wf()
    }

    /// The average of the window once `raw` has entered it.
    pub open spec fn smoothed(self, raw: i32) -> int {
        mean(shifted(self.window, raw))
    }

    /// The debounce machine after it has seen the average for `raw`.
    pub open spec fn keys_after(self, raw: i32) -> KeyStateMachine {
        self.keys.after(self.smoothed(raw))
    }

    /// What the classifier sees on the tick for `raw`: the position, raw or
    /// smoothed, with the press edge and the touch level after this sample.
    pub open spec fn reading(self, raw: i32) -> Reading {
        Reading {
            value: if self.classify_smoothed {
                self.smoothed(raw) as i32
            } else {
                raw
            },
            pressed: self.keys_after(raw).pressed_edge(),
            touched: self.keys_after(raw).touched(),
        }
    }

    /// The event of the tick for `raw` where the slider's position is read
    /// as `slider_position`.
    pub open spec fn event_with(self, raw: i32, slider_position: i32) -> Option<Event> {
        let r = self.reading(raw);
        event_of(
            self.slider.direction(slider_position as int, r.touched),
            self.slider.absolute(slider_position as int, r.touched),
            passes(self.last, self.classifier.emitted(r)),
        )
    }

    /// All stages after the tick for `raw` where the slider's position is
    /// read as `slider_position`.
    pub open spec fn after_with(self, raw: i32, slider_position: i32) -> PipelineModel {
        let r = self.reading(raw);
        PipelineModel {
            window: shifted(self.window, raw),
            keys: self.keys_after(raw),
            classifier: self.classifier.after(r),
            slider: self.slider.after(slider_position as int),
            last: self.classifier.emitted(r),
            classify_smoothed: self.classify_smoothed,
        }
    }

    /// The event of the tick for `raw`: the slider sees the position that
    /// the classifier sees.
    pub open spec fn event(self, raw: i32) -> Option<Event> {
        self.event_with(raw, self.reading(raw).value)
    }

    /// All stages after the tick for `raw`.
    pub open spec fn after(self, raw: i32) -> PipelineModel {
        self.after_with(raw, self.reading(raw).value)
    }

    /// All stages after the ticks for `raws`, one after another.
    pub open spec fn after_all(self, raws: Seq<i32>) -> PipelineModel
        decreases raws.len(),
    {
        if raws.len() == 0 {
            self
        } else {
            self.after_all(raws.drop_last()).after(raws.last())
        }
    }

    /// The event of tick `k` of a run of ticks.
    pub open spec fn event_at(self, raws: Seq<i32>, k: int) -> Option<Event>
        recommends
            0 <= k < raws.len(),
    {
        self.after_all(raws.take(k)).event(raws[k])
    }

    /// What the classifier sees, tick by tick, over a run of ticks.
    pub open spec fn readings_of(self, raws: Seq<i32>) -> Seq<Reading> {
        Seq::new(raws.len(), |k: int| self.after_all(raws.take(k)).reading(raws[k]))
    }

    /// All stages as they are before the first sample: the window at zero,
    /// the machine idle, every counter at zero, nothing remembered.
    pub open spec fn started(self) -> PipelineModel {
        PipelineModel {
            window: constant_window(self.window.len(), 0),
            keys: KeyStateMachine { state: KeyState::Idle, prev_state: KeyState::Idle },
            classifier: ClassifierModel::start(self.classifier.zones),
            slider: SliderModel { previous: 0, ..self.slider },
            last: None,
            classify_smoothed: self.classify_smoothed,
        }
    }
}

/// A tick keeps the pipeline well formed.
pub proof fn lemma_tick_wf(m: PipelineModel, raw: i32)
    requires
        m.wf(),
    ensures
        m.after(raw).wf(),
{
    lemma_after_wf(m.classifier, m.reading(raw));
}

/// A tick changes neither the window's length, nor the table, nor the
/// slider's range and divisor.
pub proof fn lemma_tick_keeps_configuration(m: PipelineModel, raw: i32)
    requires
        m.wf(),
    ensures
        m.after(raw).window.len() == m.window.len(),
        m.after(raw).classifier.zones == m.classifier.zones,
        m.after(raw).slider.min == m.slider.min,
        m.after(raw).slider.max == m.slider.max,
        m.after(raw).slider.divisor == m.slider.divisor,
        m.after(raw).classify_smoothed == m.classify_smoothed,
{
}

/// A button is handed over only on a tick on which the slider did not move,
/// and only if the classifier named it and had not named it the tick before.
pub proof fn lemma_button_needs_change(m: PipelineModel, raw: i32, symbol: Symbol)
    requires
        m.wf(),
        m.event(raw) == Some(Event::Button(symbol)),
    ensures
        m.classifier.emitted(m.reading(raw)) == Some(symbol),
        m.last != Some(symbol),
{
}

/// Over a run of ticks the pipeline stays well formed and keeps its
/// configuration, and its classifier goes through exactly the readings that
/// the earlier stages hand to it.
pub proof fn lemma_run_feeds_classifier(m: PipelineModel, raws: Seq<i32>)
    requires
        m.wf(),
    ensures
        m.after_all(raws).wf(),
        m.after_all(raws).classifier == m.classifier.after_all(m.readings_of(raws)),
        m.after_all(raws).classifier.zones == m.classifier.zones,
        m.after_all(raws).window.len() == m.window.len(),
        m.after_all(raws).slider.min == m.slider.min,
        m.after_all(raws).slider.max == m.slider.max,
        m.after_all(raws).slider.divisor == m.slider.divisor,
        m.after_all(raws).classify_smoothed == m.classify_smoothed,
    decreases raws.len(),
{
    if raws.len() > 0 {
        let n = raws.len() as int;
        let front = raws.drop_last();
        lemma_run_feeds_classifier(m, front);
        lemma_tick_wf(m.after_all(front), raws.last());
        let readings = m.readings_of(raws);
        assert forall|k: int| 0 <= k < n - 1 implies readings[k] == m.readings_of(front)[k] by {
            assert(raws.take(k) =~= front.take(k));
        }
        assert(readings.drop_last() =~= m.readings_of(front));
    }
}

/// With the classifier on raw positions and its counters at zero, a run of
/// samples in one ungated zone, as long as the zone requires and outside the
/// slider's range, yields no event until its last sample, which yields the
/// zone's button and puts every counter back to zero.
pub proof fn lemma_counted_zone_yields_button(m: PipelineModel, z: int, raws: Seq<i32>)
    requires
        m.wf(),
        !m.classify_smoothed,
        m.classifier.counters == zeros(m.classifier.zones.len()),
        0 <= z < m.classifier.zones.len(),
        m.classifier.zones[z].gate == Gate::Open,
        !m.classifier.zones[z].comparative,
        m.last != Some(m.classifier.zones[z].symbol),
        raws.len() == m.classifier.zones[z].required(),
        forall|k: int|
            0 <= k < raws.len() ==> m.classifier.zones[z].contains(#[trigger] raws[k] as int),
        forall|k: int|
            0 <= k < raws.len() ==> !(m.slider.min <= #[trigger] raws[k] <= m.slider.max),
    ensures
        forall|k: int| 0 <= k < raws.len() - 1 ==> m.event_at(raws, k) is None,
        m.event_at(raws, raws.len() - 1) == Some(Event::Button(m.classifier.zones[z].symbol)),
        m.after_all(raws).classifier.counters == zeros(m.classifier.zones.len()),
{
    let n = raws.len() as int;
    let zones = m.classifier.zones;
    let readings = m.readings_of(raws);
    assert forall|k: int| 0 <= k < n implies hit(zones, #[trigger] readings[k]) == Some(z) by {
        lemma_run_feeds_classifier(m, raws.take(k));
        lemma_zone_is_unique(zones, raws[k] as int, z);
    }
    lemma_fires_on_required_hit(m.classifier, z, readings);
    lemma_run_feeds_classifier(m, raws);
    assert forall|k: int| 0 <= k < n implies #[trigger] m.event_at(raws, k) == (if k == n - 1 {
        Some(Event::Button(zones[z].symbol))
    } else {
        None
    }) by {
        let before = m.after_all(raws.take(k));
        lemma_run_feeds_classifier(m, raws.take(k));
        let front = m.readings_of(raws.take(k));
        assert forall|j: int| 0 <= j < k implies front[j] == readings[j] by {
            assert(raws.take(k).take(j) =~= raws.take(j));
        }
        assert(front =~= readings.take(k));
        assert(before.classifier.emitted(readings[k]) == m.classifier.emitted_at(readings, k));
        if k > 0 {
            assert(raws.take(k).drop_last() =~= raws.take(k - 1));
            lemma_run_feeds_classifier(m, raws.take(k - 1));
            let sooner = m.readings_of(raws.take(k - 1));
            assert forall|j: int| 0 <= j < k - 1 implies sooner[j] == readings[j] by {
                assert(raws.take(k - 1).take(j) =~= raws.take(j));
            }
            assert(sooner =~= readings.take(k - 1));
            assert(before.last == m.classifier.emitted_at(readings, k - 1));
        }
    }
}

/// The stages of the pipeline, owned by the one worker that feeds it.
pub struct Pipeline {
    smoother: Smoother,
    keys: KeyStateMachine,
    classifier: ZoneClassifier,
    slider: SliderTracker,
    dedup: Dedup,
    classify_smoothed: bool,
}

impl View for Pipeline {
    type V = PipelineModel;

    closed spec fn view(&self) -> PipelineModel {
        PipelineModel {
            window: self.smoother@,
            keys: self.keys,
            classifier: self.classifier@,
            slider: self.slider@,
            last: self.dedup.last,
            classify_smoothed: self.classify_smoothed,
        }
    }
}

impl Pipeline {
    /// Every stage is well formed.
    pub closed spec fn wf(&self) -> bool {
        &&& self.smoother.wf()
        &&& self.classifier.wf()
        &&& self.slider.wf()
    }

    /// What `wf` says of the stages together.
    pub proof fn lemma_wf_view(&self)
        requires
            self.wf(),
        ensures
            self@.wf(),
    {
        self.smoother.lemma_wf_len();
    }

    /// A pipeline out of its stages, with an idle debounce machine and
    /// nothing remembered at the boundary. With `classify_smoothed` the
    /// classifier and the slider see the smoothed value, else the raw one.
    pub fn new(
        smoother: Smoother,
        classifier: ZoneClassifier,
        slider: SliderTracker,
        classify_smoothed: bool,
    ) -> (p: Pipeline)
        requires
            smoother.wf(),
            classifier.wf(),
            slider.wf(),
        ensures
            p.wf(),
            p@ == (PipelineModel {
                window: smoother@,
                keys: KeyStateMachine { state: KeyState::Idle, prev_state: KeyState::Idle },
                classifier: classifier@,
                slider: slider@,
                last: None,
                classify_smoothed,
            }),
    {
        Pipeline {
            smoother,
            keys: KeyStateMachine::default(),
            classifier,
            slider,
            dedup: Dedup::new(),
            classify_smoothed,
        }
    }

    /// The standard deployment: a window of twenty samples, the standard
    /// table on raw positions and the standard slider.
    pub fn standard() -> (p: Pipeline)
        ensures
            p.wf(),
            p@ == (PipelineModel {
                window: constant_window(STANDARD_WINDOW as nat, 0),
                keys: KeyStateMachine { state: KeyState::Idle, prev_state: KeyState::Idle },
                classifier: ClassifierModel::start(standard_table()),
                slider: SliderModel {
                    min: SLIDER_MIN as int,
                    max: SLIDER_MAX as int,
                    divisor: SENSITIVITY as int,
                    previous: 0,
                },
                last: None,
                classify_smoothed: false,
            }),
    {
        let smoother = Smoother::new(STANDARD_WINDOW).unwrap();
        let classifier = ZoneClassifier::new(standard_zones()).unwrap();
        Pipeline::new(smoother, classifier, SliderTracker::standard(), false)
    }

    /// Puts every stage back to where it was before the first sample. The
    /// configuration stays.
    pub fn reset(&mut self)
        requires
            old(self).wf(),
        ensures
            final(self).wf(),
            final(self)@ == old(self)@.started(),
    {
        self.smoother.reset();
        self.keys = KeyStateMachine::default();
        self.classifier.reset();
        self.slider.reset();
        self.dedup.reset();
    }

    /// The smoothed value and the number of the debounce machine's state, for
    /// observation only.
    pub fn diagnostics(&self) -> (d: (i32, u8))
        requires
            self.wf(),
        ensures
            d.0 == mean(self@.window),
            d.1 == self@.keys.state.code(),
    {
        (self.smoother.average(), self.keys.current_state())
    }

    /// Takes in one raw sample, moves every stage on by it, and returns the
    /// event it gives rise to, if any.
    pub fn tick(&mut self, raw: i32) -> (event: Option<Event>)
        requires
            old(self).wf(),
        ensures
            final(self).wf(),
            final(self)@ == old(self)@.after(raw),
            event == old(self)@.event(raw),
    {
        self.advance(raw, None)
    }

    /// As `tick`, for a deployment that reads the slider on a scale of its
    /// own: the slider sees `slider_position`, all other stages see `raw`.
    pub fn tick_with_slider(&mut self, raw: i32, slider_position: i32) -> (event: Option<Event>)
        requires
            old(self).wf(),
        ensures
            final(self).wf(),
            final(self)@ == old(self)@.after_with(raw, slider_position),
            event == old(self)@.event_with(raw, slider_position),
    {
        self.advance(raw, Some(slider_position))
    }

    /// One tick. Without a position of its own the slider sees the position
    /// that the classifier sees.
    fn advance(&mut self, raw: i32, slider_position: Option<i32>) -> (event: Option<Event>)
        requires
            old(self).wf(),
        ensures
            final(self).wf(),
            final(self)@ == old(self)@.after_with(
                raw,
                match slider_position {
                    Some(p) => p,
                    None => old(self)@.reading(raw).value,
                },
            ),
            event == old(self)@.event_with(
                raw,
                match slider_position {
                    Some(p) => p,
                    None => old(self)@.reading(raw).value,
                },
            ),
    {
        proof {
            old(self).smoother.lemma_wf_len();
            lemma_mean_bounds(shifted(old(self)@.window, raw));
        }
        let smoothed: i32 = self.smoother.push(raw);
        self.keys.update(smoothed);
        let pressed: bool = self.keys.is_pressed();
        let touched: bool = self.keys.is_touched();
        let value: i32 = if self.classify_smoothed {
            smoothed
        } else {
            raw
        };
        let code: Option<Symbol> = self.classifier.classify(value, pressed, touched);
        let slider_value: i32 = match slider_position {
            Some(p) => p,
            None => value,
        };
        let reading: SliderReading = self.slider.track(slider_value, touched);
        let button: Option<Symbol> = self.dedup.filter(code);
        match reading.position {
            Some(position) => {
                if reading.direction != 0 {
                    return Some(Event::Slider { direction: reading.direction, position });
                }
            },
            None => {},
        }
        match button {
            Some(symbol) => Some(Event::Button(symbol)),
            None => None,
        }
    }
}

} // verus!
