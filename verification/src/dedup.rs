//! Lets a code through once and holds back its repeats until the classifier
//! has gone quiet or named another code.

use vstd::prelude::*;
use crate::zones::Symbol;

verus! {

/// What leaves the boundary when the classifier yields `code` and `last` was
/// its code on the tick before: the code, unless it repeats `last`.
pub open spec fn passes(last: Option<Symbol>, code: Option<Symbol>) -> Option<Symbol> {
    match code {
        Some(c) => if last == Some(c) {
            None
        } else {
            Some(c)
        },
        None => None,
    }
}

/// The code remembered after a run of ticks: that of the last tick, or
/// `last` where there was no tick.
pub open spec fn remembered(last: Option<Symbol>, codes: Seq<Option<Symbol>>) -> Option<Symbol> {
    if codes.len() == 0 {
        last
    } else {
        codes.last()
    }
}

/// What leaves the boundary on tick `k` of a run of ticks.
pub open spec fn passes_at(
    last: Option<Symbol>,
    codes: Seq<Option<Symbol>>,
    k: int,
) -> Option<Symbol>
    recommends
        0 <= k < codes.len(),
{
    passes(remembered(last, codes.take(k)), codes[k])
}

/// The boundary between classifier and consumer.
#[derive(Debug, Clone, Copy, PartialEq, Eq)]
pub struct Dedup {
    /// The classifier's code on the tick before; empty after a tick without
    /// a code.
    pub last: Option<Symbol>,
}

impl Dedup {
    /// A boundary that has let nothing through yet.
    pub fn new() -> (d: Dedup)
        ensures
            d.last is None,
    {
        Dedup { last: None }
    }

    /// Forgets the code let through last.
    pub fn reset(&mut self)
        ensures
            final(self).last is None,
    {
        self.last = None;
    }

    /// Takes the classifier's code of one tick and returns what is to be
    /// emitted: the code where it differs from the one before, nothing where
    /// it repeats it or where there is none. A tick without a code clears
    /// what is remembered.
    pub fn filter(&mut self, code: Option<Symbol>) -> (out: Option<Symbol>)
        ensures
            out == passes(old(self).last, code),
            final(self).last == code,
    {
        let repeated: bool = match (self.last, code) {
            (Some(a), Some(b)) => a == b,
            _ => false,
        };
        self.last = code;
        if repeated {
            None
        } else {
            code
        }
    }
}

/// A code that the classifier repeats tick after tick is emitted on the
/// first of these ticks only.
pub proof fn lemma_repeats_pass_once(last: Option<Symbol>, c: Symbol, n: nat, k: int)
    requires
        last != Some(c),
        0 <= k < n,
    ensures
        passes_at(last, Seq::new(n, |i: int| Some(c)), k) == (if k == 0 {
            Some(c)
        } else {
            None
        }),
{
}

/// After a tick without a code the same code is emitted again.
pub proof fn lemma_passes_again_after_silence(last: Option<Symbol>, c: Symbol)
    ensures
        passes_at(last, seq![None, Some(c)], 1) == Some(c),
        passes_at(Some(c), seq![Some(c), None, Some(c)], 0) is None,
        passes_at(Some(c), seq![Some(c), None, Some(c)], 2) == Some(c),
{
}

/// In any run of ticks a code is emitted exactly where the classifier names
/// a code other than the one of the tick before.
pub proof fn lemma_passes_on_change(last: Option<Symbol>, codes: Seq<Option<Symbol>>, k: int)
    requires
        0 <= k < codes.len(),
    ensures
        passes_at(last, codes, k) == passes(
            if k == 0 {
                last
            } else {
                codes[k - 1]
            },
            codes[k],
        ),
{
}

} // verus!
