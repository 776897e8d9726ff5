//! Turns raw position samples of a rotary/slider sensor into discrete,
//! de-duplicated events.

pub mod dedup;
pub mod frame;
pub mod keycode;
pub mod keystate;
pub mod pipeline;
pub mod slider;
pub mod smoother;
pub mod zones;
