//! Maps a position to a symbol through a table of disjoint ranges, with an
//! optional count of consecutive hits before a zone fires.

use vstd::prelude::*;

verus! {

/// How far a position must move from the one before it to count as motion
/// in a comparative zone.
pub const DEAD_ZONE: i32 = 2;

/// The codes a zone can emit.
#[derive(Debug, Clone, Copy, PartialEq, Eq, Structural)]
pub enum Symbol {
    Return,
    Left,
    Right,
    /// The confirming button, reported as "Ok".
    Okay,
}

/// The signal that must be up for a sample to count as a hit on a zone.
#[derive(Debug, Clone, Copy, PartialEq, Eq, Structural)]
pub enum Gate {
    /// Every sample in the range counts.
    Open,
    /// Only the sample on which a press began counts.
    Pressed,
    /// Samples count while the sensor is in contact.
    Touched,
}

/// One row of the table: a closed range of positions and what it stands for.
#[derive(Debug, Clone, Copy, PartialEq, Eq)]
pub struct Zone {
    /// Lowest position of the range.
    pub lo: i32,
    /// Highest position of the range.
    pub hi: i32,
    /// The code the zone emits, unless it is comparative.
    pub symbol: Symbol,
    /// Consecutive hits needed before the zone fires; `None` fires at once.
    pub required_hits: Option<u32>,
    /// The signal a sample needs to count as a hit.
    pub gate: Gate,
    /// Emit `Left` or `Right` by the direction of motion in place of `symbol`.
    pub comparative: bool,
}

/// One sample as the classifier sees it.
#[derive(Debug, Clone, Copy, PartialEq, Eq)]
pub struct Reading {
    pub value: i32,
    pub pressed: bool,
    pub touched: bool,
}

/// What the classifier knows: its table, one hit counter per zone, and the
/// position of the sample before.
pub struct ClassifierModel {
    pub zones: Seq<Zone>,
    pub counters: Seq<nat>,
    pub previous: Option<i32>,
}

impl Zone {
    /// The position lies in the zone's range.
    pub open spec fn contains(self, value: int) -> bool {
        self.lo <= value <= self.hi
    }

    /// The two ranges share no position.
    pub open spec fn disjoint(self, other: Zone) -> bool {
        self.hi < other.lo || other.hi < self.lo
    }

    /// The range is not empty, and a count of hits, if given, is at least one.
    pub open spec fn valid(self) -> bool {
        &&& self.lo <= self.hi
        &&& self.required_hits matches Some(n) ==> n >= 1
    }

    /// Consecutive hits at which the zone fires.
    pub open spec fn required(self) -> nat {
        match self.required_hits {
            Some(n) => n as nat,
            None => 1,
        }
    }

    /// A zone that emits `symbol` at once for every sample in `lo..=hi` that
    /// passes `gate`.
    pub fn direct(lo: i32, hi: i32, symbol: Symbol, gate: Gate) -> (z: Zone)
        ensures
            z == (Zone { lo, hi, symbol, required_hits: None, gate, comparative: false }),
    {
        Zone { lo, hi, symbol, required_hits: None, gate, comparative: false }
    }

    /// A zone that emits `symbol` at the `hits`-th consecutive sample in
    /// `lo..=hi`.
    pub fn counted(lo: i32, hi: i32, symbol: Symbol, hits: u32) -> (z: Zone)
        ensures
            z == (Zone {
                lo,
                hi,
                symbol,
                required_hits: Some(hits),
                gate: Gate::Open,
                comparative: false,
            }),
    {
        Zone { lo, hi, symbol, required_hits: Some(hits), gate: Gate::Open, comparative: false }
    }

    /// A zone that emits `Right` or `Left` as the position rises or falls
    /// within `lo..=hi`, for every sample that passes `gate`.
    pub fn directional(lo: i32, hi: i32, gate: Gate) -> (z: Zone)
        ensures
            z == (Zone {
                lo,
                hi,
                symbol: Symbol::Right,
                required_hits: None,
                gate,
                comparative: true,
            }),
    {
        Zone { lo, hi, symbol: Symbol::Right, required_hits: None, gate, comparative: true }
    }
}

impl Gate {
    /// Whether a sample with these two signals counts.
    pub open spec fn open(self, pressed: bool, touched: bool) -> bool {
        match self {
            Gate::Open => true,
            Gate::Pressed => pressed,
            Gate::Touched => touched,
        }
    }

    /// Whether a sample with these two signals counts.
    pub fn is_open(&self, pressed: bool, touched: bool) -> (b: bool)
        ensures
            b == self.open(pressed, touched),
    {
        match self {
            Gate::Open => true,
            Gate::Pressed => pressed,
            Gate::Touched => touched,
        }
    }
}

/// Every zone is valid and no two zones share a position.
pub open spec fn valid_table(zones: Seq<Zone>) -> bool {
    &&& forall|i: int| 0 <= i < zones.len() ==> (#[trigger] zones[i]).valid()
    &&& forall|i: int, j: int|
        0 <= i < j < zones.len() ==> (#[trigger] zones[i]).disjoint(#[trigger] zones[j])
}

/// Index of the first zone of the table whose range holds the position.
pub open spec fn find_zone(zones: Seq<Zone>, value: int) -> Option<int>
    decreases zones.len(),
{
    if zones.len() == 0 {
        None
    } else {
        match find_zone(zones.drop_last(), value) {
            Some(i) => Some(i),
            None => if zones.last().contains(value) {
                Some(zones.len() - 1)
            } else {
                None
            },
        }
    }
}

/// Counters of `n` zones, all at zero.
pub open spec fn zeros(n: nat) -> Seq<nat> {
    Seq::new(n, |i: int| 0nat)
}

/// The zone a reading hits: the one that holds its position, if the reading
/// passes that zone's gate.
pub open spec fn hit(zones: Seq<Zone>, r: Reading) -> Option<int> {
    match find_zone(zones, r.value as int) {
        Some(i) => if zones[i].gate.open(r.pressed, r.touched) {
            Some(i)
        } else {
            None
        },
        None => None,
    }
}

/// What a comparative zone emits: `Right` for a position more than the dead
/// zone above the one before, `Left` for one more than the dead zone below,
/// nothing in between or without a position before.
pub open spec fn direction_symbol(previous: Option<i32>, value: int) -> Option<Symbol> {
    match previous {
        Some(p) => if value > p + DEAD_ZONE {
            Some(Symbol::Right)
        } else if value < p - DEAD_ZONE {
            Some(Symbol::Left)
        } else {
            None
        },
        None => None,
    }
}

impl ClassifierModel {
    /// The table is valid, each zone has its counter, no counter has reached
    /// the count at which its zone fires, and at most one zone is being
    /// counted.
    pub open spec fn wf(self) -> bool {
        &&& valid_table(self.zones)
        &&& self.counters.len() == self.zones.len()
        &&& forall|i: int|
            0 <= i < self.zones.len() ==> self.counters[i] < (#[trigger] self.zones[i]).required()
        &&& forall|i: int, j: int|
            0 <= i < j < self.counters.len() ==> #[trigger] self.counters[i] == 0
                || #[trigger] self.counters[j] == 0
    }

    /// The state before any sample: all counters at zero, no position seen.
    pub open spec fn start(zones: Seq<Zone>) -> ClassifierModel {
        ClassifierModel { zones, counters: zeros(zones.len()), previous: None }
    }

    /// The reading hits a zone and brings its counter to the required count.
    pub open spec fn fires(self, r: Reading) -> bool {
        hit(self.zones, r) matches Some(i) && self.counters[i] + 1 >= self.zones[i].required()
    }

    /// The code the reading makes the classifier emit.
    pub open spec fn emitted(self, r: Reading) -> Option<Symbol> {
        match hit(self.zones, r) {
            Some(i) => if self.counters[i] + 1 >= self.zones[i].required() {
                if self.zones[i].comparative {
                    direction_symbol(self.previous, r.value as int)
                } else {
                    Some(self.zones[i].symbol)
                }
            } else {
                None
            },
            None => None,
        }
    }

    /// The counters after the reading: all zero, but for the counter of a
    /// zone that was hit without firing, which is one higher than before.
    pub open spec fn counters_after(self, r: Reading) -> Seq<nat> {
        match hit(self.zones, r) {
            Some(i) => if self.counters[i] + 1 >= self.zones[i].required() {
                zeros(self.zones.len())
            } else {
                zeros(self.zones.len()).update(i, self.counters[i] + 1)
            },
            None => zeros(self.zones.len()),
        }
    }

    /// The classifier after the reading.
    pub open spec fn after(self, r: Reading) -> ClassifierModel {
        ClassifierModel {
            zones: self.zones,
            counters: self.counters_after(r),
            previous: Some(r.value),
        }
    }

    /// The classifier after the readings, one after another.
    pub open spec fn after_all(self, readings: Seq<Reading>) -> ClassifierModel
        decreases readings.len(),
    {
        if readings.len() == 0 {
            self
        } else {
            self.after_all(readings.drop_last()).after(readings.last())
        }
    }

    /// The code emitted for the reading at place `k` of a run of readings.
    pub open spec fn emitted_at(self, readings: Seq<Reading>, k: int) -> Option<Symbol>
        recommends
            0 <= k < readings.len(),
    {
        self.after_all(readings.take(k)).emitted(readings[k])
    }
}

/// What `find_zone` returns: the first zone that holds the position, or
/// nothing where no zone holds it.
pub proof fn lemma_find_zone(zones: Seq<Zone>, value: int)
    ensures
        match find_zone(zones, value) {
            Some(i) => {
                &&& 0 <= i < zones.len()
                &&& zones[i].contains(value)
                &&& forall|j: int| 0 <= j < i ==> !(#[trigger] zones[j]).contains(value)
            },
            None => forall|j: int| 0 <= j < zones.len() ==> !(#[trigger] zones[j]).contains(value),
        },
    decreases zones.len(),
{
    if zones.len() > 0 {
        let front = zones.drop_last();
        lemma_find_zone(front, value);
        assert forall|j: int| 0 <= j < front.len() implies front[j] == zones[j] by {}
    }
}

/// In a valid table the zone that holds a position is the only one.
pub proof fn lemma_zone_is_unique(zones: Seq<Zone>, value: int, i: int)
    requires
        valid_table(zones),
        0 <= i < zones.len(),
        zones[i].contains(value),
    ensures
        find_zone(zones, value) == Some(i),
        forall|j: int| 0 <= j < zones.len() && j != i ==> !(#[trigger] zones[j]).contains(value),
{
    lemma_find_zone(zones, value);
}

/// A step keeps the classifier well formed.
pub proof fn lemma_after_wf(m: ClassifierModel, r: Reading)
    requires
        m.wf(),
    ensures
        m.after(r).wf(),
{
    lemma_find_zone(m.zones, r.value as int);
}

/// A run of steps keeps the classifier well formed and its table unchanged.
pub proof fn lemma_after_all_wf(m: ClassifierModel, readings: Seq<Reading>)
    requires
        m.wf(),
    ensures
        m.after_all(readings).wf(),
        m.after_all(readings).zones == m.zones,
    decreases readings.len(),
{
    if readings.len() > 0 {
        lemma_after_all_wf(m, readings.drop_last());
        lemma_after_wf(m.after_all(readings.drop_last()), readings.last());
    }
}

/// A reading that hits no zone emits nothing and puts every counter back to
/// zero, whatever the counters held.
pub proof fn lemma_miss_resets_all(m: ClassifierModel, r: Reading)
    requires
        m.wf(),
        hit(m.zones, r) is None,
    ensures
        m.emitted(r) is None,
        m.after(r).counters == zeros(m.zones.len()),
{
}

/// A reading that hits one zone puts the counter of every other zone back to
/// zero.
pub proof fn lemma_hit_resets_others(m: ClassifierModel, r: Reading, j: int)
    requires
        m.wf(),
        0 <= j < m.zones.len(),
        hit(m.zones, r) != Some(j),
    ensures
        m.after(r).counters[j] == 0,
{
    lemma_find_zone(m.zones, r.value as int);
}

/// While the counters of all other zones are zero, `k` hits in a row on one
/// zone, fewer than it requires, emit nothing and leave its counter at `k`.
pub proof fn lemma_hits_accumulate(m: ClassifierModel, z: int, readings: Seq<Reading>)
    requires
        m.wf(),
        m.counters == zeros(m.zones.len()),
        0 <= z < m.zones.len(),
        readings.len() < m.zones[z].required(),
        forall|k: int| 0 <= k < readings.len() ==> hit(m.zones, #[trigger] readings[k]) == Some(z),
    ensures
        m.after_all(readings).counters == zeros(m.zones.len()).update(z, readings.len()),
        forall|k: int| 0 <= k < readings.len() ==> m.emitted_at(readings, k) is None,
    decreases readings.len(),
{
    if readings.len() > 0 {
        let n = readings.len() as int;
        let front = readings.drop_last();
        lemma_hits_accumulate(m, z, front);
        lemma_after_all_wf(m, front);
        assert forall|k: int| 0 <= k < n implies m.emitted_at(readings, k) is None by {
            if k < n - 1 {
                assert(readings.take(k) =~= front.take(k));
                assert(m.emitted_at(front, k) is None);
            }
        }
    }
}

/// From counters at zero, a run of hits on one zone as long as the zone
/// requires emits nothing until its last reading, which fires the zone and
/// puts every counter back to zero: the next run starts from nothing.
pub proof fn lemma_fires_on_required_hit(m: ClassifierModel, z: int, readings: Seq<Reading>)
    requires
        m.wf(),
        m.counters == zeros(m.zones.len()),
        0 <= z < m.zones.len(),
        readings.len() == m.zones[z].required(),
        forall|k: int| 0 <= k < readings.len() ==> hit(m.zones, #[trigger] readings[k]) == Some(z),
    ensures
        forall|k: int| 0 <= k < readings.len() - 1 ==> m.emitted_at(readings, k) is None,
        m.after_all(readings.drop_last()).fires(readings.last()),
        !m.zones[z].comparative ==> m.emitted_at(readings, readings.len() - 1)
            == Some(m.zones[z].symbol),
        m.after_all(readings).counters == zeros(m.zones.len()),
{
    let n = readings.len() as int;
    let front = readings.drop_last();
    lemma_hits_accumulate(m, z, front);
    lemma_after_all_wf(m, front);
    assert forall|k: int| 0 <= k < n - 1 implies m.emitted_at(readings, k) is None by {
        assert(readings.take(k) =~= front.take(k));
        assert(m.emitted_at(front, k) is None);
    }
}

/// Classifier over a table of zones, with one hit counter per zone.
pub struct ZoneClassifier {
    zones: Vec<Zone>,
    counters: Vec<u32>,
    prev: Option<i32>,
}

impl View for ZoneClassifier {
    type V = ClassifierModel;

    closed spec fn view(&self) -> ClassifierModel {
        ClassifierModel {
            zones: self.zones@,
            counters: self.counters@.map_values(|c: u32| c as nat),
            previous: self.prev,
        }
    }
}

/// Whether the zones make a valid table.
pub fn table_is_valid(zones: &Vec<Zone>) -> (ok: bool)
    ensures
        ok == valid_table(zones@),
{
    let n: usize = zones.len();
    let mut i: usize = 0;
    while i < n
        invariant
            i <= n,
            n == zones@.len(),
            forall|a: int| 0 <= a < i ==> (#[trigger] zones@[a]).valid(),
            forall|a: int, b: int|
                0 <= a < b < i ==> (#[trigger] zones@[a]).disjoint(#[trigger] zones@[b]),
        decreases n - i,
    {
        let z: Zone = zones[i];
        if z.lo > z.hi {
            return false;
        }
        match z.required_hits {
            Some(hits) => {
                if hits == 0 {
                    return false;
                }
            },
            None => {},
        }
        let mut j: usize = 0;
        while j < i
            invariant
                j <= i,
                i < n,
                n == zones@.len(),
                z == zones@[i as int],
                forall|a: int| 0 <= a < j ==> (#[trigger] zones@[a]).disjoint(z),
            decreases i - j,
        {
            let y: Zone = zones[j];
            if !(y.hi < z.lo || z.hi < y.lo) {
                return false;
            }
            j += 1;
        }
        i += 1;
    }
    true
}

impl ZoneClassifier {
    /// The classifier's state is well formed.
    pub open spec fn wf(&self) -> bool {
        self@.wf()
    }

    /// A classifier over `zones`, in table order, with every counter at zero.
    /// There is none for a table with an empty range, a count of zero hits,
    /// or two ranges that overlap.
    pub fn new(zones: Vec<Zone>) -> (r: Option<ZoneClassifier>)
        ensures
            r is Some <==> valid_table(zones@),
            r matches Some(c) ==> c.wf() && c@ == ClassifierModel::start(zones@),
    {
        if !table_is_valid(&zones) {
            return None;
        }
        let n: usize = zones.len();
        let mut counters: Vec<u32> = Vec::new();
        let mut i: usize = 0;
        while i < n
            invariant
                i <= n,
                counters@.len() == i,
                forall|k: int| 0 <= k < i ==> counters@[k] == 0,
            decreases n - i,
        {
            counters.push(0);
            i += 1;
        }
        let c = ZoneClassifier { zones, counters, prev: None };
        proof {
            assert(c@.counters =~= zeros(n as nat));
        }
        Some(c)
    }

    /// Number of zones in the table.
    pub fn len(&self) -> (n: usize)
        ensures
            n == self@.zones.len(),
    {
        self.zones.len()
    }

    /// The zone at place `i` of the table.
    pub fn zone(&self, i: usize) -> (z: Option<Zone>)
        ensures
            z == (if i < self@.zones.len() {
                Some(self@.zones[i as int])
            } else {
                None
            }),
    {
        if i < self.zones.len() {
            Some(self.zones[i])
        } else {
            None
        }
    }

    /// The hit counter of the zone at place `i` of the table.
    pub fn counter(&self, i: usize) -> (c: Option<u32>)
        requires
            self.wf(),
        ensures
            c matches Some(k) ==> i < self@.zones.len() && k == self@.counters[i as int],
            c is None <==> i >= self@.zones.len(),
    {
        if i < self.counters.len() {
            Some(self.counters[i])
        } else {
            None
        }
    }

    /// Index of the zone whose range holds the position.
    pub fn locate(&self, value: i32) -> (r: Option<usize>)
        ensures
            match r {
                Some(i) => find_zone(self@.zones, value as int) == Some(i as int),
                None => find_zone(self@.zones, value as int) is None,
            },
    {
        let n: usize = self.zones.len();
        let mut i: usize = 0;
        while i < n
            invariant
                i <= n,
                n == self.zones@.len(),
                find_zone(self.zones@.take(i as int), value as int) is None,
            decreases n - i,
        {
            let z: Zone = self.zones[i];
            proof {
                assert(self.zones@.take(i + 1).drop_last() =~= self.zones@.take(i as int));
            }
            if z.lo <= value && value <= z.hi {
                proof {
                    lemma_found_in_prefix(self.zones@, value as int, i + 1);
                }
                return Some(i);
            }
            i += 1;
        }
        proof {
            assert(self.zones@.take(n as int) =~= self.zones@);
        }
        None
    }

    /// Puts every counter back to zero and forgets the position seen last.
    pub fn reset(&mut self)
        requires
            old(self).wf(),
        ensures
            final(self).wf(),
            final(self)@ == ClassifierModel::start(old(self)@.zones),
    {
        self.clear();
        self.prev = None;
    }

    /// Puts every counter back to zero.
    fn clear(&mut self)
        requires
            old(self).counters@.len() == old(self).zones@.len(),
        ensures
            final(self).zones == old(self).zones,
            final(self).prev == old(self).prev,
            final(self).counters@.len() == old(self).counters@.len(),
            final(self)@.counters == zeros(old(self).zones@.len()),
    {
        let n: usize = self.counters.len();
        let mut i: usize = 0;
        while i < n
            invariant
                i <= n,
                n == self.counters@.len(),
                self.zones == old(self).zones,
                self.prev == old(self).prev,
                forall|k: int| 0 <= k < i ==> self.counters@[k] == 0,
            decreases n - i,
        {
            self.counters.set(i, 0);
            i += 1;
        }
    }

    /// Takes in one sample: counts it on the zone it hits, puts the other
    /// counters back to zero, and returns the code of a zone that fires.
    pub fn classify(&mut self, value: i32, pressed: bool, touched: bool) -> (code: Option<Symbol>)
        requires
            old(self).wf(),
        ensures
            final(self).wf(),
            final(self)@ == old(self)@.after(Reading { value, pressed, touched }),
            code == old(self)@.emitted(Reading { value, pressed, touched }),
    {
        let ghost r = Reading { value, pressed, touched };
        let ghost before = self@;
        proof {
            lemma_find_zone(before.zones, value as int);
            lemma_after_wf(before, r);
        }
        let previous = self.prev;
        self.prev = Some(value);
        let found = self.locate(value);
        match found {
            Some(i) => {
                let z: Zone = self.zones[i];
                if z.gate.is_open(pressed, touched) {
                    let hits: u32 = self.counters[i] + 1;
                    let needed: u32 = match z.required_hits {
                        Some(n) => n,
                        None => 1,
                    };
                    self.clear();
                    if hits >= needed {
                        if z.comparative {
                            direction_of(previous, value)
                        } else {
                            Some(z.symbol)
                        }
                    } else {
                        self.counters.set(i, hits);
                        assert(self@.counters =~= before.counters_after(r));
                        None
                    }
                } else {
                    self.clear();
                    None
                }
            },
            None => {
                self.clear();
                None
            },
        }
    }
}

/// The code of a comparative zone for a position and the one before it.
pub fn direction_of(previous: Option<i32>, value: i32) -> (code: Option<Symbol>)
    ensures
        code == direction_symbol(previous, value as int),
{
    match previous {
        Some(p) => {
            let v: i64 = value as i64;
            let q: i64 = p as i64;
            if v > q + DEAD_ZONE as i64 {
                Some(Symbol::Right)
            } else if v < q - DEAD_ZONE as i64 {
                Some(Symbol::Left)
            } else {
                None
            }
        },
        None => None,
    }
}

/// A zone found among the first `k` zones of a table is the one found in
/// the whole table.
proof fn lemma_found_in_prefix(zones: Seq<Zone>, value: int, k: int)
    requires
        0 <= k <= zones.len(),
        find_zone(zones.take(k), value) is Some,
    ensures
        find_zone(zones, value) == find_zone(zones.take(k), value),
    decreases zones.len() - k,
{
    if k < zones.len() {
        assert(zones.take(k + 1).drop_last() =~= zones.take(k));
        lemma_found_in_prefix(zones, value, k + 1);
    } else {
        assert(zones.take(k) =~= zones);
    }
}

} // verus!
