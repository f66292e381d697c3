//! Call-progress tone cadencing.
//!
//! A tone is one period of a two-sine waveform (all call-progress frequencies
//! divide 10 Hz, so 100 ms of samples loops seamlessly) played either
//! continuously or gated by an on/off cadence.  The waveform table is
//! synthesised outside the library (it is transcendental); this module owns
//! the exactly-specified part: which sample the speaker gets at each tick.
//!
//! Standard recipes: off-hook dial tone 350+440 Hz continuous; the same
//! tone beeping 500 ms on / 500 ms off when there is no connectivity; busy
//! 480+620 Hz at 500/500; ring-back 440+480 Hz at 2000/4000.

use vstd::prelude::*;

verus! {

/// A cadenced tone mid-playback.
pub struct TwoToneGen {
    /// One seamless period of the waveform.
    pub samples: Vec<i16>,
    pub sample_rate: u32,
    /// Ticks of waveform per cadence cycle.
    pub on_count: usize,
    /// Ticks of silence per cadence cycle; zero means continuous.
    pub off_count: usize,
    /// Position in the waveform table.
    pub sample_idx: usize,
    /// Position in the cadence cycle.
    pub sent_count: usize,
}

impl TwoToneGen {
    pub open spec fn wf(self) -> bool {
        &&& 1 <= self.samples.len()
        &&& self.sample_idx < self.samples.len()
        &&& self.on_count <= 1000000000
        &&& self.off_count <= 1000000000
        &&& self.off_count > 0 ==> self.sent_count < self.on_count + self.off_count
        &&& self.off_count == 0 ==> self.sent_count == 0
    }

    /// A continuous tone from one period of waveform.
    pub fn new(rate: u32, samples: Vec<i16>) -> (t: TwoToneGen)
        requires
            1 <= samples.len() <= 1000000,
        ensures
            t.wf(),
            t.samples == samples,
            t.sample_rate == rate,
            t.on_count == samples.len(),
            t.off_count == 0,
            t.sample_idx == 0,
            t.sent_count == 0,
    {
        let on_count = samples.len();
        TwoToneGen { samples, sample_rate: rate, on_count, off_count: 0, sample_idx: 0, sent_count: 0 }
    }

    /// Gate the tone: `on_ms` of waveform then `off_ms` of silence per cycle.
    pub fn beep(self, on_ms: u32, off_ms: u32) -> (t: TwoToneGen)
        requires
            self.wf(),
            self.sent_count == 0,
            self.sample_rate <= 192000,
            on_ms <= 10000,
            off_ms <= 10000,
        ensures
            t.wf(),
            t.samples == self.samples,
            t.sample_rate == self.sample_rate,
            t.on_count == self.sample_rate * on_ms / 1000,
            t.off_count == self.sample_rate * off_ms / 1000,
            t.sample_idx == self.sample_idx,
            t.sent_count == 0,
    {
        let rate64: u64 = self.sample_rate as u64;
        assert(rate64 * on_ms as u64 <= 1920000000) by (nonlinear_arith)
            requires
                rate64 <= 192000,
                on_ms <= 10000,
        ;
        assert(rate64 * off_ms as u64 <= 1920000000) by (nonlinear_arith)
            requires
                rate64 <= 192000,
                off_ms <= 10000,
        ;
        let on_count: usize = (rate64 * (on_ms as u64) / 1000) as usize;
        let off_count: usize = (rate64 * (off_ms as u64) / 1000) as usize;
        TwoToneGen { on_count, off_count, ..self }
    }

    /// Continuous 350+440 Hz dial tone.
    pub fn off_hook(rate: u32, samples: Vec<i16>) -> (t: TwoToneGen)
        requires
            1 <= samples.len() <= 1000000,
        ensures
            t.wf(),
            t.samples == samples,
            t.on_count == samples.len(),
            t.off_count == 0,
    {
        TwoToneGen::new(rate, samples)
    }

    /// 350+440 Hz beeping 500 ms on / 500 ms off: no connectivity.
    pub fn no_wifi(rate: u32, samples: Vec<i16>) -> (t: TwoToneGen)
        requires
            1 <= samples.len() <= 1000000,
            rate <= 192000,
        ensures
            t.wf(),
            t.samples == samples,
            t.on_count == rate * 500 / 1000,
            t.off_count == rate * 500 / 1000,
    {
        TwoToneGen::new(rate, samples).beep(500, 500)
    }

    /// 480+620 Hz beeping 500 ms on / 500 ms off: busy.
    pub fn busy(rate: u32, samples: Vec<i16>) -> (t: TwoToneGen)
        requires
            1 <= samples.len() <= 1000000,
            rate <= 192000,
        ensures
            t.wf(),
            t.samples == samples,
            t.on_count == rate * 500 / 1000,
            t.off_count == rate * 500 / 1000,
    {
        TwoToneGen::new(rate, samples).beep(500, 500)
    }

    /// 440+480 Hz, 2 s on / 4 s off: ring-back.
    pub fn ring(rate: u32, samples: Vec<i16>) -> (t: TwoToneGen)
        requires
            1 <= samples.len() <= 1000000,
            rate <= 192000,
        ensures
            t.wf(),
            t.samples == samples,
            t.on_count == rate * 2000 / 1000,
            t.off_count == rate * 4000 / 1000,
    {
        TwoToneGen::new(rate, samples).beep(2000, 4000)
    }

    /// The next speaker sample: the waveform during the on phase of the
    /// cadence, equilibrium (zero) during the off phase.
    pub fn next_sample(&mut self) -> (s: i16)
        requires
            old(self).wf(),
        ensures
            final(self).wf(),
            (*final(self), s) == tone_next(*old(self)),
            final(self).samples == old(self).samples,
            final(self).on_count == old(self).on_count,
            final(self).off_count == old(self).off_count,
    {
        if self.off_count > 0 {
            self.sent_count = self.sent_count + 1;
            if self.sent_count <= self.on_count {
                let s = self.samples[self.sample_idx];
                self.sample_idx = if self.sample_idx + 1 == self.samples.len() {
                    0
                } else {
                    self.sample_idx + 1
                };
                s
            } else {
                if self.sent_count == self.on_count + self.off_count {
                    self.sent_count = 0;
                }
                0
            }
        } else {
            let s = self.samples[self.sample_idx];
            self.sample_idx = if self.sample_idx + 1 == self.samples.len() {
                0
            } else {
                self.sample_idx + 1
            };
            s
        }
    }
}

/// One cadence tick: the next generator state and the emitted sample.
pub open spec fn tone_next(t: TwoToneGen) -> (TwoToneGen, i16) {
    if t.off_count > 0 {
        let sent = t.sent_count + 1;
        if sent <= t.on_count {
            (
                TwoToneGen {
                    sent_count: sent as usize,
                    sample_idx: if t.sample_idx + 1 == t.samples.len() {
                        0
                    } else {
                        (t.sample_idx + 1) as usize
                    },
                    ..t
                },
                t.samples[t.sample_idx as int],
            )
        } else {
            (
                TwoToneGen {
                    sent_count: if sent == t.on_count + t.off_count {
                        0
                    } else {
                        sent as usize
                    },
                    ..t
                },
                0,
            )
        }
    } else {
        (
            TwoToneGen {
                sample_idx: if t.sample_idx + 1 == t.samples.len() {
                    0
                } else {
                    (t.sample_idx + 1) as usize
                },
                ..t
            },
            t.samples[t.sample_idx as int],
        )
    }
}

/// During the off phase of the cadence the generator emits equilibrium:
/// a cadenced tone is truly silent between beeps.
pub proof fn lemma_tone_off_phase_silent(t: TwoToneGen)
    requires
        t.wf(),
        t.off_count > 0,
        t.sent_count >= t.on_count,
    ensures
        tone_next(t).1 == 0i16,
{
}

} // verus!
