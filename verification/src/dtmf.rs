//! Digit debouncing for the DTMF detection pipeline.
//!
//! The Goertzel bank emits one raw detection per analysis window: a digit
//! code, or [`NULL`] when no key tone is present.  The [`DigState`] debouncer
//! turns that noisy per-window stream into clean digit events: a digit is
//! emitted once it has been seen for `hits_to_begin` consecutive windows, and
//! the key is considered released after `misses_to_end` windows without it.

use vstd::prelude::*;

verus! {

/// Digit code meaning "no tone detected" (silence between key presses).
pub const NULL: u8 = 255;
/// Digit code for the `*` key.
pub const SEXTILE: u8 = 10;
/// Digit code for the `#` key.
pub const OCTOTHORPE: u8 = 12;

/// Debouncer state.
///
/// `sent_dig` is the digit currently being emitted (or [`NULL`]), `curr_dig`
/// the candidate being tracked, `n_hits` how many consecutive windows the
/// candidate has been seen, and `n_misses` how many windows in a row the
/// emitted digit has been absent.
#[derive(Clone, Copy, PartialEq, Eq, Structural, Debug)]
pub struct DigState {
    pub sent_dig: u8,
    pub curr_dig: u8,
    pub n_hits: usize,
    pub n_misses: usize,
    /// Consecutive windows a candidate must be seen before it is emitted.
    pub hits_to_begin: usize,
    /// Consecutive windows without the digit before the key counts as released.
    pub misses_to_end: usize,
}

impl DigState {
    /// Well-formedness: the configured thresholds are in range and the
    /// counters are below the bounds the transition relation maintains.
    pub open spec fn wf(self) -> bool {
        &&& 1 <= self.hits_to_begin <= 100
        &&& 1 <= self.misses_to_end <= 100
        &&& self.n_misses + 1 <= self.misses_to_end
        &&& if self.sent_dig == NULL {
                self.n_hits + 1 <= self.hits_to_begin
            } else {
                self.n_hits <= self.hits_to_begin - 1 + self.n_misses
            }
        &&& self.sent_dig != NULL ==> self.curr_dig != NULL
    }

    /// One debouncer transition: the state after feeding raw detection `dig`,
    /// together with the digit emitted by that step, if any.
    pub open spec fn step(self, dig: u8) -> (DigState, Option<u8>) {
        let h = self.hits_to_begin;
        let m = self.misses_to_end;
        if dig == self.sent_dig {
            (DigState { n_hits: 0, n_misses: 0, ..self }, None)
        } else if self.sent_dig == NULL && dig != self.curr_dig && h == 1 {
            (DigState { sent_dig: dig, curr_dig: dig, n_hits: 0, ..self }, Some(dig))
        } else if self.sent_dig == NULL && dig != self.curr_dig {
            (DigState { curr_dig: dig, n_hits: 1, ..self }, None)
        } else if self.sent_dig == NULL && self.n_hits + 1 < h {
            (DigState { n_hits: (self.n_hits + 1) as usize, ..self }, None)
        } else if self.sent_dig == NULL {
            (DigState { sent_dig: self.curr_dig, n_hits: 0, ..self }, Some(self.curr_dig))
        } else if dig == NULL && self.n_misses + 1 < m {
            (DigState { n_misses: (self.n_misses + 1) as usize, ..self }, None)
        } else if dig == NULL {
            (DigState { sent_dig: NULL, n_hits: 0, n_misses: 0, ..self }, None)
        } else if dig != self.curr_dig && self.n_misses + 1 < m {
            (
                DigState {
                    curr_dig: dig,
                    n_hits: 1,
                    n_misses: (self.n_misses + 1) as usize,
                    ..self
                },
                None,
            )
        } else if dig != self.curr_dig && h == 1 {
            (
                DigState { sent_dig: self.curr_dig, curr_dig: dig, n_hits: 0, n_misses: 0, ..self },
                Some(self.curr_dig),
            )
        } else if dig != self.curr_dig {
            (DigState { sent_dig: NULL, curr_dig: dig, n_hits: 1, n_misses: 0, ..self }, None)
        } else if self.n_misses + 1 < m {
            (
                DigState {
                    n_hits: (self.n_hits + 1) as usize,
                    n_misses: (self.n_misses + 1) as usize,
                    ..self
                },
                None,
            )
        } else if self.n_hits + 1 < h {
            (DigState { n_hits: (self.n_hits + 1) as usize, n_misses: 0, ..self }, None)
        } else {
            (
                DigState { sent_dig: self.curr_dig, n_hits: 0, n_misses: 0, ..self },
                Some(self.curr_dig),
            )
        }
    }

    /// Feed one raw per-window detection into the debouncer; returns the
    /// digit to emit downstream, if this window completes a detection.
    pub fn poosh(&mut self, dig: u8) -> (emitted: Option<u8>)
        requires
            old(self).wf(),
        ensures
            (*final(self), emitted) == old(self).step(dig),
            final(self).wf(),
            final(self).hits_to_begin == old(self).hits_to_begin,
            final(self).misses_to_end == old(self).misses_to_end,
    {
        let h = self.hits_to_begin;
        let m = self.misses_to_end;
        if dig == self.sent_dig {
            self.n_hits = 0;
            self.n_misses = 0;
            None
        } else if self.sent_dig == NULL && dig != self.curr_dig && h == 1 {
            self.sent_dig = dig;
            self.curr_dig = dig;
            self.n_hits = 0;
            Some(dig)
        } else if self.sent_dig == NULL && dig != self.curr_dig {
            self.curr_dig = dig;
            self.n_hits = 1;
            None
        } else if self.sent_dig == NULL && self.n_hits + 1 < h {
            self.n_hits = self.n_hits + 1;
            None
        } else if self.sent_dig == NULL {
            self.sent_dig = self.curr_dig;
            self.n_hits = 0;
            Some(self.curr_dig)
        } else if dig == NULL && self.n_misses + 1 < m {
            self.n_misses = self.n_misses + 1;
            None
        } else if dig == NULL {
            self.sent_dig = NULL;
            self.n_hits = 0;
            self.n_misses = 0;
            None
        } else if dig != self.curr_dig && self.n_misses + 1 < m {
            self.curr_dig = dig;
            self.n_hits = 1;
            self.n_misses = self.n_misses + 1;
            None
        } else if dig != self.curr_dig && h == 1 {
            let emitted = self.curr_dig;
            self.sent_dig = emitted;
            self.curr_dig = dig;
            self.n_hits = 0;
            self.n_misses = 0;
            Some(emitted)
        } else if dig != self.curr_dig {
            self.sent_dig = NULL;
            self.curr_dig = dig;
            self.n_hits = 1;
            self.n_misses = 0;
            None
        } else if self.n_misses + 1 < m {
            self.n_hits = self.n_hits + 1;
            self.n_misses = self.n_misses + 1;
            None
        } else if self.n_hits + 1 < h {
            self.n_hits = self.n_hits + 1;
            self.n_misses = 0;
            None
        } else {
            self.sent_dig = self.curr_dig;
            self.n_hits = 0;
            self.n_misses = 0;
            Some(self.curr_dig)
        }
    }
}

/// Fresh debouncer state: nothing emitted, nothing tracked, thresholds at
/// the standard two-hits / two-misses configuration.
pub open spec fn fresh_dig_state() -> DigState {
    DigState {
        sent_dig: NULL,
        curr_dig: NULL,
        n_hits: 0,
        n_misses: 0,
        hits_to_begin: 2,
        misses_to_end: 2,
    }
}

impl Default for DigState {
    /// Fresh debouncer: nothing emitted, nothing tracked, thresholds at the
    /// standard two-hits / two-misses configuration.
    fn default() -> (s: DigState)
        ensures
            s == fresh_dig_state(),
            s.wf(),
    {
        DigState {
            sent_dig: NULL,
            curr_dig: NULL,
            n_hits: 0,
            n_misses: 0,
            hits_to_begin: 2,
            misses_to_end: 2,
        }
    }
}

/// An emission installs its digit as the emitted one, never emits the
/// silence code, and — when the input is the emitted digit itself — can
/// only happen if that digit was not already being emitted.  (With a
/// one-hit threshold a candidate can be emitted off an input that differs
/// from it; such an input is then itself the required break between two
/// equal emissions.)
pub proof fn lemma_no_repeat_emission(s: DigState, dig: u8)
    requires
        s.wf(),
    ensures
        s.step(dig).1 is Some ==> s.step(dig).0.sent_dig == s.step(dig).1.unwrap(),
        s.step(dig).1 is Some ==> s.step(dig).1.unwrap() != NULL,
        s.step(dig).1 == Some(dig) ==> s.sent_dig != dig,
{
}

/// A step preserves well-formedness and the configuration.
pub proof fn lemma_step_wf(s: DigState, dig: u8)
    requires
        s.wf(),
    ensures
        s.step(dig).0.wf(),
        s.step(dig).0.hits_to_begin == s.hits_to_begin,
        s.step(dig).0.misses_to_end == s.misses_to_end,
{
}

/// While a digit is being emitted, feeding that same digit leaves it the
/// emitted digit; the emission can only end via a window that carries
/// something else.
pub proof fn lemma_emission_holds(s: DigState, dig: u8)
    requires
        s.wf(),
        s.sent_dig != NULL,
        dig == s.sent_dig,
    ensures
        s.step(dig).0.sent_dig == s.sent_dig,
        s.step(dig).1 is None,
{
}

/// The debouncer state after feeding a whole detection sequence.
pub open spec fn run_deb(s: DigState, inputs: Seq<u8>) -> DigState
    decreases inputs.len(),
{
    if inputs.len() == 0 {
        s
    } else {
        run_deb(s, inputs.drop_last()).step(inputs.last()).0
    }
}

/// What the step at position `i` of the run emits.
pub open spec fn emit_at(s: DigState, inputs: Seq<u8>, i: int) -> Option<u8> {
    run_deb(s, inputs.take(i)).step(inputs[i]).1
}

proof fn lemma_run_snoc(s: DigState, inputs: Seq<u8>, i: int)
    requires
        0 <= i < inputs.len(),
    ensures
        run_deb(s, inputs.take(i + 1)) == run_deb(s, inputs.take(i)).step(inputs[i]).0,
{
    assert(inputs.take(i + 1).drop_last() =~= inputs.take(i));
    assert(inputs.take(i + 1).last() == inputs[i]);
}

proof fn lemma_run_wf(s: DigState, inputs: Seq<u8>)
    requires
        s.wf(),
    ensures
        run_deb(s, inputs).wf(),
    decreases inputs.len(),
{
    if inputs.len() > 0 {
        lemma_run_wf(s, inputs.drop_last());
        lemma_step_wf(run_deb(s, inputs.drop_last()), inputs.last());
    }
}

/// While every input in `[i, j)` carries digit `d`, an emission of `d` that
/// stood at position `i` keeps `d` as the emitted digit through position `j`.
proof fn lemma_sent_holds(s: DigState, inputs: Seq<u8>, i: int, j: int, d: u8)
    requires
        s.wf(),
        0 <= i <= j <= inputs.len(),
        d != NULL,
        run_deb(s, inputs.take(i)).sent_dig == d,
        forall|k: int| i <= k < j ==> inputs[k] == d,
    ensures
        run_deb(s, inputs.take(j)).sent_dig == d,
    decreases j - i,
{
    if j > i {
        lemma_sent_holds(s, inputs, i, j - 1, d);
        lemma_run_wf(s, inputs.take(j - 1));
        lemma_emission_holds(run_deb(s, inputs.take(j - 1)), inputs[j - 1]);
        lemma_run_snoc(s, inputs, j - 1);
    }
}

/// The debouncer never emits the same digit twice in a row without an
/// intervening window that carried something else (silence or another
/// digit): at most one digit event per physical key press.
pub proof fn lemma_no_double_emission(s: DigState, inputs: Seq<u8>, i: int, j: int, d: u8)
    requires
        s.wf(),
        0 <= i < j < inputs.len(),
        emit_at(s, inputs, i) == Some(d),
        emit_at(s, inputs, j) == Some(d),
    ensures
        exists|k: int| i < k <= j && inputs[k] != d,
{
    if forall|k: int| i < k <= j ==> inputs[k] == d {
        lemma_run_wf(s, inputs.take(i));
        lemma_no_repeat_emission(run_deb(s, inputs.take(i)), inputs[i]);
        lemma_run_snoc(s, inputs, i);
        assert(run_deb(s, inputs.take(i + 1)).sent_dig == d);
        lemma_sent_holds(s, inputs, i + 1, j, d);
        lemma_run_wf(s, inputs.take(j));
        assert(inputs[j] == d);
        lemma_no_repeat_emission(run_deb(s, inputs.take(j)), inputs[j]);
        assert(false);
    }
}

} // verus!
