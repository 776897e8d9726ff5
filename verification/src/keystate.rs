//! Three-state debounce machine driven by a single press threshold.

use vstd::prelude::*;

verus! {

/// A sample strictly above this value counts as contact with the sensor.
pub const PRESS_THRESHOLD: i32 = 2000;

#[derive(Debug, Clone, Copy, PartialEq, Eq, Structural)]
pub enum KeyState {
    Idle,
    Pressed,
    Released,
}

#[derive(Debug, Clone, Copy, PartialEq, Eq, Structural)]
pub struct KeyStateMachine {
    pub state: KeyState,
    pub prev_state: KeyState,
}

/// The steps the machine can take: a state may stay, or move on to the next
/// one of the cycle Idle, Pressed, Released, Idle.
pub open spec fn legal_step(from: KeyState, to: KeyState) -> bool {
    match from {
        KeyState::Idle => to == KeyState::Idle || to == KeyState::Pressed,
        KeyState::Pressed => to == KeyState::Pressed || to == KeyState::Released,
        KeyState::Released => to == KeyState::Released || to == KeyState::Idle,
    }
}

impl KeyState {
    /// The state that follows `self` when a sample `pos` arrives.
    pub open spec fn next(self, pos: int) -> KeyState {
        match self {
            KeyState::Idle => if pos > PRESS_THRESHOLD {
                KeyState::Pressed
            } else {
                KeyState::Idle
            },
            KeyState::Pressed => if pos > PRESS_THRESHOLD {
                KeyState::Pressed
            } else {
                KeyState::Released
            },
            KeyState::Released => if pos > PRESS_THRESHOLD {
                KeyState::Released
            } else {
                KeyState::Idle
            },
        }
    }

    /// The number a state is reported by: 0 for Idle, 1 for Pressed, 2 for
    /// Released.
    pub open spec fn code(self) -> int {
        match self {
            KeyState::Idle => 0,
            KeyState::Pressed => 1,
            KeyState::Released => 2,
        }
    }

    /// Transition to the next state based on the current input.
    pub fn transition(&self, pos: i32) -> (next: KeyState)
        ensures
            next == self.next(pos as int),
            legal_step(*self, next),
    {
        let is_pressed = pos > PRESS_THRESHOLD;
        match (self, is_pressed) {
            (KeyState::Idle, true) => KeyState::Pressed,
            (KeyState::Idle, false) => KeyState::Idle,
            (KeyState::Pressed, true) => KeyState::Pressed,
            (KeyState::Pressed, false) => KeyState::Released,
            (KeyState::Released, true) => KeyState::Released,
            (KeyState::Released, false) => KeyState::Idle,
        }
    }
}

impl Default for KeyState {
    fn default() -> (s: KeyState)
        ensures
            s == KeyState::Idle,
    {
        KeyState::Idle
    }
}

impl Default for KeyStateMachine {
    fn default() -> (m: KeyStateMachine)
        ensures
            m.state == KeyState::Idle,
            m.prev_state == KeyState::Idle,
    {
        KeyStateMachine { state: KeyState::Idle, prev_state: KeyState::Idle }
    }
}

impl KeyStateMachine {
    /// The machine after a sample `pos`: the old state is remembered, the
    /// new one follows from it and the sample.
    pub open spec fn after(self, pos: int) -> KeyStateMachine {
        KeyStateMachine { state: self.state.next(pos), prev_state: self.state }
    }

    /// The machine after the samples of `samples`, one after another.
    pub open spec fn after_all(self, samples: Seq<i32>) -> KeyStateMachine
        decreases samples.len(),
    {
        if samples.len() == 0 {
            self
        } else {
            self.after_all(samples.drop_last()).after(samples.last() as int)
        }
    }

    /// True right after the machine entered `Pressed` from another state.
    pub open spec fn pressed_edge(self) -> bool {
        self.state == KeyState::Pressed && self.prev_state != KeyState::Pressed
    }

    /// True while the sensor is in contact: in every state but `Idle`.
    pub open spec fn touched(self) -> bool {
        self.state != KeyState::Idle
    }

    /// Update the state machine with the new position.
    pub fn update(&mut self, pos: i32)
        ensures
            *final(self) == old(self).after(pos as int),
            final(self).prev_state == old(self).state,
            legal_step(final(self).prev_state, final(self).state),
    {
        let new_state = self.state.transition(pos);
        self.prev_state = self.state;
        self.state = new_state;
    }

    /// Edge-triggered: true only right after a press began.
    pub fn is_pressed(&self) -> (b: bool)
        ensures
            b == self.pressed_edge(),
    {
        self.state == KeyState::Pressed && self.prev_state != KeyState::Pressed
    }

    /// Level-triggered: true as long as the state is not `Idle`.
    pub fn is_touched(&self) -> (b: bool)
        ensures
            b == self.touched(),
    {
        self.state != KeyState::Idle
    }

    /// The number of the current state: 0 for Idle, 1 for Pressed, 2 for
    /// Released.
    pub fn current_state(&self) -> (c: u8)
        ensures
            c == self.state.code(),
    {
        match self.state {
            KeyState::Idle => 0,
            KeyState::Pressed => 1,
            KeyState::Released => 2,
        }
    }
}

/// Whatever the sample, the machine takes a legal step, and whether it
/// moves depends on nothing but the sample's side of the threshold.
pub proof fn lemma_steps_are_legal(s: KeyState, pos: int, other: int)
    ensures
        legal_step(s, s.next(pos)),
        (pos > PRESS_THRESHOLD) == (other > PRESS_THRESHOLD) ==> s.next(pos) == s.next(other),
{
}

/// After any run of samples from a machine that took a legal step last, the
/// remembered state and the current one are still one legal step apart.
pub proof fn lemma_runs_stay_legal(m: KeyStateMachine, samples: Seq<i32>)
    requires
        legal_step(m.prev_state, m.state),
    ensures
        legal_step(m.after_all(samples).prev_state, m.after_all(samples).state),
    decreases samples.len(),
{
    if samples.len() > 0 {
        lemma_runs_stay_legal(m, samples.drop_last());
    }
}

/// From `Idle`, the first sample above the threshold reports a press; a
/// second one in a row does not, while the state stays `Pressed`.
pub proof fn lemma_press_fires_once(m: KeyStateMachine, first: int, second: int)
    requires
        m.state == KeyState::Idle,
        first > PRESS_THRESHOLD,
        second > PRESS_THRESHOLD,
    ensures
        m.after(first).pressed_edge(),
        !m.after(first).after(second).pressed_edge(),
        m.after(first).after(second).state == KeyState::Pressed,
{
}

/// However long the sensor is held above the threshold after a press began,
/// no further press is reported and the state stays `Pressed`.
pub proof fn lemma_no_press_while_held(m: KeyStateMachine, held: Seq<i32>)
    requires
        m.state == KeyState::Pressed,
        held.len() > 0,
        forall|i: int| 0 <= i < held.len() ==> held[i] > PRESS_THRESHOLD,
    ensures
        m.after_all(held).state == KeyState::Pressed,
        !m.after_all(held).pressed_edge(),
    decreases held.len(),
{
    let earlier = held.drop_last();
    if earlier.len() > 0 {
        lemma_no_press_while_held(m, earlier);
    }
    assert(m.after_all(held) == m.after_all(earlier).after(held.last() as int));
}

} // verus!
