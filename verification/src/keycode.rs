//! The standard zone table and the key codes it yields.

use vstd::prelude::*;
use crate::zones::{
    lemma_find_zone, lemma_zone_is_unique, valid_table, ClassifierModel, Gate, Reading, Symbol,
    Zone,
};

verus! {

impl Symbol {
    /// The name a symbol is reported by.
    pub open spec fn name_chars(self) -> Seq<char> {
        match self {
            Symbol::Return => "Return"@,
            Symbol::Left => "Left"@,
            Symbol::Right => "Right"@,
            Symbol::Okay => "Ok"@,
        }
    }

    /// The name a symbol is reported by: "Return", "Left", "Right" or "Ok".
    pub fn name(&self) -> (s: String)
        ensures
            s@ == self.name_chars(),
    {
        match self {
            Symbol::Return => "Return".to_string(),
            Symbol::Left => "Left".to_string(),
            Symbol::Right => "Right".to_string(),
            Symbol::Okay => "Ok".to_string(),
        }
    }
}

/// The button a position stands for in the standard table.
pub open spec fn button_at(pos: int) -> Option<Symbol> {
    if 3070 <= pos <= 3120 {
        Some(Symbol::Return)
    } else if 2840 <= pos <= 2910 {
        Some(Symbol::Left)
    } else if 2500 <= pos <= 2550 {
        Some(Symbol::Right)
    } else if 2340 <= pos <= 2440 {
        Some(Symbol::Okay)
    } else {
        None
    }
}

/// The key for one sample: slider motion comes first, upwards as `Left` and
/// downwards as `Right`; without motion, the button at the position on the
/// sample a press began with.
pub open spec fn key_at(pos: int, slider_dir: int, is_pressed: bool) -> Option<Symbol> {
    if slider_dir > 0 {
        Some(Symbol::Left)
    } else if slider_dir < 0 {
        Some(Symbol::Right)
    } else if is_pressed {
        button_at(pos)
    } else {
        None
    }
}

/// The standard table: four buttons, each emitted at once on a press.
pub open spec fn standard_table() -> Seq<Zone> {
    seq![
        Zone {
            lo: 3070,
            hi: 3120,
            symbol: Symbol::Return,
            required_hits: None,
            gate: Gate::Pressed,
            comparative: false,
        },
        Zone {
            lo: 2840,
            hi: 2910,
            symbol: Symbol::Left,
            required_hits: None,
            gate: Gate::Pressed,
            comparative: false,
        },
        Zone {
            lo: 2500,
            hi: 2550,
            symbol: Symbol::Right,
            required_hits: None,
            gate: Gate::Pressed,
            comparative: false,
        },
        Zone {
            lo: 2340,
            hi: 2440,
            symbol: Symbol::Okay,
            required_hits: None,
            gate: Gate::Pressed,
            comparative: false,
        },
    ]
}

/// The zones of the standard table, in the order they are looked up.
pub fn standard_zones() -> (zones: Vec<Zone>)
    ensures
        zones@ == standard_table(),
        valid_table(zones@),
{
    let mut zones: Vec<Zone> = Vec::new();
    zones.push(Zone::direct(3070, 3120, Symbol::Return, Gate::Pressed));
    zones.push(Zone::direct(2840, 2910, Symbol::Left, Gate::Pressed));
    zones.push(Zone::direct(2500, 2550, Symbol::Right, Gate::Pressed));
    zones.push(Zone::direct(2340, 2440, Symbol::Okay, Gate::Pressed));
    proof {
        lemma_standard_table_valid();
    }
    zones
}

/// The key for one sample, as a symbol.
pub fn key_symbol(pos: i32, slider_dir: i32, is_pressed: bool) -> (key: Option<Symbol>)
    ensures
        key == key_at(pos as int, slider_dir as int, is_pressed),
{
    if slider_dir != 0 {
        if slider_dir > 0 {
            Some(Symbol::Left)
        } else {
            Some(Symbol::Right)
        }
    } else if is_pressed {
        if 3070 <= pos && pos <= 3120 {
            Some(Symbol::Return)
        } else if 2840 <= pos && pos <= 2910 {
            Some(Symbol::Left)
        } else if 2500 <= pos && pos <= 2550 {
            Some(Symbol::Right)
        } else if 2340 <= pos && pos <= 2440 {
            Some(Symbol::Okay)
        } else {
            None
        }
    } else {
        None
    }
}

/// The key for one sample, by its name.
pub fn conv_keycode(pos: i32, slider_dir: i32, is_pressed: bool) -> (keycode: Option<String>)
    ensures
        match key_at(pos as int, slider_dir as int, is_pressed) {
            Some(symbol) => keycode matches Some(name) && name@ == symbol.name_chars(),
            None => keycode is None,
        },
{
    match key_symbol(pos, slider_dir, is_pressed) {
        Some(symbol) => Some(symbol.name()),
        None => None,
    }
}

/// The standard table is a valid table.
pub proof fn lemma_standard_table_valid()
    ensures
        valid_table(standard_table()),
{
}

/// A classifier over the standard table emits, on the sample a press began
/// with, the button at the sample's position, and nothing on other samples:
/// what `key_at` says for a slider at rest.
pub proof fn lemma_standard_table_gives_buttons(m: ClassifierModel, r: Reading)
    requires
        m.wf(),
        m.zones == standard_table(),
    ensures
        m.emitted(r) == key_at(r.value as int, 0, r.pressed),
{
    let t = standard_table();
    let v = r.value as int;
    lemma_find_zone(t, v);
    if t[0].contains(v) {
        lemma_zone_is_unique(t, v, 0);
    } else if t[1].contains(v) {
        lemma_zone_is_unique(t, v, 1);
    } else if t[2].contains(v) {
        lemma_zone_is_unique(t, v, 2);
    } else if t[3].contains(v) {
        lemma_zone_is_unique(t, v, 3);
    }
}

} // verus!
