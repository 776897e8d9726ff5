use knob_events::dedup::Dedup;
use knob_events::zones::Symbol;

#[test]
fn repeated_code_is_emitted_once() {
    let mut d = Dedup::new();
    assert_eq!(d.filter(Some(Symbol::Left)), Some(Symbol::Left));
    assert_eq!(d.filter(Some(Symbol::Left)), None);
    assert_eq!(d.filter(Some(Symbol::Left)), None);
    assert_eq!(d.last, Some(Symbol::Left));
}

#[test]
fn code_is_emitted_again_after_silence() {
    let mut d = Dedup::new();
    assert_eq!(d.filter(Some(Symbol::Left)), Some(Symbol::Left));
    assert_eq!(d.filter(Some(Symbol::Left)), None);
    assert_eq!(d.filter(Some(Symbol::Left)), None);
    assert_eq!(d.filter(None), None);
    assert_eq!(d.last, None);
    assert_eq!(d.filter(Some(Symbol::Left)), Some(Symbol::Left));
}

#[test]
fn another_code_passes_at_once() {
    let mut d = Dedup::new();
    assert_eq!(d.filter(Some(Symbol::Left)), Some(Symbol::Left));
    assert_eq!(d.filter(Some(Symbol::Right)), Some(Symbol::Right));
    assert_eq!(d.filter(Some(Symbol::Left)), Some(Symbol::Left));
    assert_eq!(d.filter(Some(Symbol::Okay)), Some(Symbol::Okay));
    assert_eq!(d.filter(Some(Symbol::Okay)), None);
    assert_eq!(d.filter(Some(Symbol::Return)), Some(Symbol::Return));
}

#[test]
fn silence_stays_silent() {
    let mut d = Dedup::new();
    assert_eq!(d.last, None);
    assert_eq!(d.filter(None), None);
    assert_eq!(d.filter(None), None);
    assert_eq!(d.last, None);
}

#[test]
fn dedup_reset_lets_the_code_pass_again() {
    let mut d = Dedup::new();
    assert_eq!(d.filter(Some(Symbol::Return)), Some(Symbol::Return));
    d.reset();
    assert_eq!(d.last, None);
    assert_eq!(d.filter(Some(Symbol::Return)), Some(Symbol::Return));
}
