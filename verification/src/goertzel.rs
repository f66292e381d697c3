//! Goertzel filter bank for DTMF detection.
//!
//! Seven resonators, one per DTMF frequency (697, 770, 852, 941 Hz rows;
//! 1209, 1336, 1477 Hz columns), are driven over fixed-size analysis windows
//! of input samples.  At the end of each window the per-frequency energies
//! decide which key, if any, was pressed.
//!
//! All arithmetic is exact fixed point: window coefficients are Q15
//! (`32768` = 1.0), resonator coefficients Q14 (`16384` = 1.0), and the
//! resonator state is clamped to `±`[`Q_BOUND`] — a range far above anything a
//! 16-bit signal can excite — so every step is free of overflow.  The tables
//! themselves (a Hamming window and the per-frequency coefficients
//! `2·cos(2π/N·(0.5 + N·f/Fs))`) are transcendental and are supplied by the
//! caller in a [`GoertzelConfig`].

use vstd::prelude::*;

use crate::dtmf::{fresh_dig_state, DigState, NULL};

verus! {

/// Clamp bound for the resonator state registers.
pub const Q_BOUND: i64 = 1099511627776;

/// Number of resonators: four row frequencies then three column frequencies.
pub const N_FREQS: usize = 7;
/// Number of row frequencies (697, 770, 852, 941 Hz).
pub const N_ROW_FREQS: usize = 4;

/// Truncating division (round toward zero) by a positive divisor, as Rust's
/// `/` computes it on signed integers.
pub open spec fn trunc_div(a: int, d: int) -> int {
    if a >= 0 {
        a / d
    } else {
        -((-a) / d)
    }
}

/// Clamp `v` into `[-Q_BOUND, Q_BOUND]`.
pub open spec fn clamp_q(v: int) -> int {
    if v > Q_BOUND {
        Q_BOUND as int
    } else if v < -(Q_BOUND as int) {
        -(Q_BOUND as int)
    } else {
        v
    }
}

/// A sample scaled by a Q15 window coefficient.
pub open spec fn windowed_sample(s: int, w: int) -> int {
    trunc_div(s * w, 32768)
}

/// One resonator update: `q0 = coeff·q1 − q2 + x` in Q14, clamped.
pub open spec fn resonator_step(q1: int, q2: int, c: int, x: int) -> int {
    clamp_q(trunc_div(c * q1, 16384) - q2 + x)
}

/// Goertzel energy of one resonator: `q1² + q2² − coeff·q1·q2` in Q14.
pub open spec fn resonator_energy(q1: int, q2: int, c: int) -> int {
    q1 * q1 + q2 * q2 - trunc_div(c * q1 * q2, 16384)
}

/// Detection parameters: the window and resonator coefficient tables and the
/// decision thresholds.
pub struct GoertzelConfig {
    /// Q15 analysis window (e.g. Hamming), one coefficient per sample.
    pub window: Vec<i32>,
    /// Q14 resonator coefficient per frequency.
    pub coeffs: Vec<i64>,
    /// Absolute energy floor for the strongest row and column frequency.
    pub thresh_mag: i64,
    /// Per-frequency relative-peak threshold, in hundredths: the strongest
    /// row (column) energy must be at least `num/100` times the runner-up.
    pub thresh_rel_peaks: Vec<i64>,
    /// The two peak energies together must be at least this multiple of the
    /// window's total energy.
    pub thresh_rel_energy: i64,
}

impl GoertzelConfig {
    pub open spec fn wf(self) -> bool {
        &&& 1 <= self.window.len() <= 100000
        &&& forall|i: int| 0 <= i < self.window.len() ==> 0 <= #[trigger] self.window[i] <= 32768
        &&& self.coeffs.len() == N_FREQS
        &&& forall|k: int|
            0 <= k < N_FREQS ==> -32768 <= #[trigger] self.coeffs[k] <= 32768
        &&& 1 <= self.thresh_mag
        &&& self.thresh_rel_peaks.len() == N_FREQS
        &&& forall|k: int|
            0 <= k < N_FREQS ==> 0 <= #[trigger] self.thresh_rel_peaks[k] <= 1000000
        &&& 0 <= self.thresh_rel_energy <= 1000000
    }
}

/// Index (0..4) of the first strongest row energy.
pub open spec fn row_max_idx(es: Seq<int>) -> int {
    let b1 = if es[1] > es[0] {
        1int
    } else {
        0int
    };
    let b2 = if es[2] > es[b1] {
        2int
    } else {
        b1
    };
    if es[3] > es[b2] {
        3int
    } else {
        b2
    }
}

/// Index (4..7) of the first strongest column energy.
pub open spec fn col_max_idx(es: Seq<int>) -> int {
    let b1 = if es[5] > es[4] {
        5int
    } else {
        4int
    };
    if es[6] > es[b1] {
        6int
    } else {
        b1
    }
}

pub open spec fn max2(a: int, b: int) -> int {
    if a >= b {
        a
    } else {
        b
    }
}

/// Strongest row energy other than the peak's.
pub open spec fn row_runner_up(es: Seq<int>) -> int {
    let bi = row_max_idx(es);
    if bi == 0 {
        max2(max2(es[1], es[2]), es[3])
    } else if bi == 1 {
        max2(max2(es[0], es[2]), es[3])
    } else if bi == 2 {
        max2(max2(es[0], es[1]), es[3])
    } else {
        max2(max2(es[0], es[1]), es[2])
    }
}

/// Strongest column energy other than the peak's.
pub open spec fn col_runner_up(es: Seq<int>) -> int {
    let bi = col_max_idx(es);
    if bi == 4 {
        max2(es[5], es[6])
    } else if bi == 5 {
        max2(es[4], es[6])
    } else {
        max2(es[4], es[5])
    }
}

/// The per-window decision of §"Goertzel Bank": a digit is detected iff the
/// strongest row and column energies clear the absolute floor, stand clearly
/// above the in-band runners-up, and together dominate the window's total
/// energy; otherwise the window reads as [`NULL`].
pub open spec fn digit_decision(es: Seq<int>, total: int, cfg: GoertzelConfig) -> u8 {
    let ri = row_max_idx(es);
    let ci = col_max_idx(es);
    let rv = es[ri];
    let cv = es[ci];
    let r2 = row_runner_up(es);
    let c2 = col_runner_up(es);
    if rv < cfg.thresh_mag || cv < cfg.thresh_mag || rv * 100 < r2 * cfg.thresh_rel_peaks[ri]
        || cv * 100 < c2 * cfg.thresh_rel_peaks[ci] || rv + cv < cfg.thresh_rel_energy * total {
        NULL
    } else if ri == 3 && ci == 5 {
        0u8
    } else {
        (ri * 3 + ci - 3) as u8
    }
}

/// One Goertzel detector: resonator state for each of the seven frequencies
/// plus the running total energy over the current window.
pub struct Goertzeler {
    pub cfg: GoertzelConfig,
    pub q1: Vec<i64>,
    pub q2: Vec<i64>,
    pub total_energy: i64,
    /// Samples consumed so far in the current window.
    pub idx: usize,
}

impl Goertzeler {
    pub open spec fn wf(self) -> bool {
        &&& self.cfg.wf()
        &&& self.q1.len() == N_FREQS
        &&& self.q2.len() == N_FREQS
        &&& forall|k: int|
            0 <= k < N_FREQS ==> -(Q_BOUND as int) <= #[trigger] self.q1[k] <= Q_BOUND
        &&& forall|k: int|
            0 <= k < N_FREQS ==> -(Q_BOUND as int) <= #[trigger] self.q2[k] <= Q_BOUND
        &&& self.idx <= self.cfg.window.len()
        &&& 0 <= self.total_energy <= self.idx * 1073741824
    }

    /// The seven per-frequency energies of the current state.
    pub open spec fn energies(self) -> Seq<int> {
        Seq::new(N_FREQS as nat, |k: int| resonator_energy(self.q1[k] as int, self.q2[k] as int, self.cfg.coeffs[k] as int))
    }

    pub fn new(cfg: GoertzelConfig) -> (g: Goertzeler)
        requires
            cfg.wf(),
        ensures
            g.wf(),
            g.cfg == cfg,
            g.idx == 0,
            g.total_energy == 0,
            forall|k: int| 0 <= k < N_FREQS ==> #[trigger] g.q1[k] == 0,
            forall|k: int| 0 <= k < N_FREQS ==> #[trigger] g.q2[k] == 0,
    {
        let mut q1: Vec<i64> = Vec::new();
        let mut q2: Vec<i64> = Vec::new();
        let mut k: usize = 0;
        while k < N_FREQS
            invariant
                k <= N_FREQS,
                q1.len() == k,
                q2.len() == k,
                forall|j: int| 0 <= j < k ==> #[trigger] q1[j] == 0,
                forall|j: int| 0 <= j < k ==> #[trigger] q2[j] == 0,
            decreases N_FREQS - k,
        {
            q1.push(0);
            q2.push(0);
            k = k + 1;
        }
        Goertzeler { cfg, q1, q2, total_energy: 0, idx: 0 }
    }

    /// Reset to a fresh window without touching the configuration.
    pub fn reset(&mut self)
        requires
            old(self).wf(),
        ensures
            final(self).wf(),
            final(self).cfg == old(self).cfg,
            final(self).idx == 0,
            final(self).total_energy == 0,
            forall|k: int| 0 <= k < N_FREQS ==> #[trigger] final(self).q1[k] == 0,
            forall|k: int| 0 <= k < N_FREQS ==> #[trigger] final(self).q2[k] == 0,
    {
        let mut k: usize = 0;
        while k < N_FREQS
            invariant
                old(self).wf(),
                k <= N_FREQS,
                self.cfg == old(self).cfg,
                self.q1.len() == N_FREQS,
                self.q2.len() == N_FREQS,
                self.total_energy == old(self).total_energy,
                self.idx == old(self).idx,
                forall|j: int| 0 <= j < k ==> #[trigger] self.q1[j] == 0,
                forall|j: int| 0 <= j < k ==> #[trigger] self.q2[j] == 0,
                forall|j: int|
                    0 <= j < N_FREQS ==> -(Q_BOUND as int) <= #[trigger] self.q1[j] <= Q_BOUND,
                forall|j: int|
                    0 <= j < N_FREQS ==> -(Q_BOUND as int) <= #[trigger] self.q2[j] <= Q_BOUND,
            decreases N_FREQS - k,
        {
            self.q1[k] = 0;
            self.q2[k] = 0;
            k = k + 1;
        }
        self.total_energy = 0;
        self.idx = 0;
    }

    /// Drive every resonator with the next sample of the current window.
    pub fn push(&mut self, sample: i16)
        requires
            old(self).wf(),
            old(self).idx < old(self).cfg.window.len(),
        ensures
            final(self).wf(),
            final(self).cfg == old(self).cfg,
            final(self).idx == old(self).idx + 1,
            ({
                let x = windowed_sample(
                    sample as int,
                    old(self).cfg.window[old(self).idx as int] as int,
                );
                &&& forall|k: int|
                    0 <= k < N_FREQS ==> #[trigger] final(self).q1[k] == resonator_step(
                        old(self).q1[k] as int,
                        old(self).q2[k] as int,
                        old(self).cfg.coeffs[k] as int,
                        x,
                    )
                &&& forall|k: int|
                    0 <= k < N_FREQS ==> #[trigger] final(self).q2[k] == old(self).q1[k]
                &&& final(self).total_energy == old(self).total_energy + x * x
            }),
    {
        let w: i32 = self.cfg.window[self.idx];
        proof {
            lemma_abs_mul(sample as int, w as int, 32768, 32768);
        }
        let x: i64 = trunc_div_i64((sample as i64) * (w as i64), 32768);
        proof {
            lemma_trunc_div_bound(sample as int * w as int, 32768, 32768);
        }
        let mut k: usize = 0;
        while k < N_FREQS
            invariant
                old(self).wf(),
                old(self).idx < old(self).cfg.window.len(),
                k <= N_FREQS,
                self.cfg == old(self).cfg,
                self.idx == old(self).idx,
                self.total_energy == old(self).total_energy,
                self.q1.len() == N_FREQS,
                self.q2.len() == N_FREQS,
                -32768 <= x <= 32768,
                x == windowed_sample(
                    sample as int,
                    old(self).cfg.window[old(self).idx as int] as int,
                ),
                forall|j: int|
                    0 <= j < k ==> #[trigger] self.q1[j] == resonator_step(
                        old(self).q1[j] as int,
                        old(self).q2[j] as int,
                        old(self).cfg.coeffs[j] as int,
                        x as int,
                    ),
                forall|j: int| 0 <= j < k ==> #[trigger] self.q2[j] == old(self).q1[j],
                forall|j: int| k <= j < N_FREQS ==> #[trigger] self.q1[j] == old(self).q1[j],
                forall|j: int| k <= j < N_FREQS ==> #[trigger] self.q2[j] == old(self).q2[j],
                forall|j: int|
                    0 <= j < N_FREQS ==> -(Q_BOUND as int) <= #[trigger] self.q1[j] <= Q_BOUND,
                forall|j: int|
                    0 <= j < N_FREQS ==> -(Q_BOUND as int) <= #[trigger] self.q2[j] <= Q_BOUND,
            decreases N_FREQS - k,
        {
            let c: i64 = self.cfg.coeffs[k];
            let q1k: i64 = self.q1[k];
            let q2k: i64 = self.q2[k];
            proof {
                lemma_abs_mul(c as int, q1k as int, 32768, Q_BOUND as int);
            }
            let t: i64 = trunc_div_i64(c * q1k, 16384);
            proof {
                lemma_trunc_div_bound(c as int * q1k as int, 16384, 2199023255552);
            }
            let unclamped: i64 = t - q2k + x;
            let q0: i64 = if unclamped > Q_BOUND {
                Q_BOUND
            } else if unclamped < -Q_BOUND {
                -Q_BOUND
            } else {
                unclamped
            };
            self.q2[k] = q1k;
            self.q1[k] = q0;
            k = k + 1;
        }
        proof {
            lemma_abs_mul(x as int, x as int, 32768, 32768);
            assert(x as int * x as int >= 0) by (nonlinear_arith);
        }
        self.total_energy = self.total_energy + x * x;
        self.idx = self.idx + 1;
    }

    /// Decide which digit, if any, the current window's energies spell.
    pub fn get_digit(&self) -> (d: u8)
        requires
            self.wf(),
        ensures
            d == digit_decision(self.energies(), self.total_energy as int, self.cfg),
    {
        let mut es: Vec<i128> = Vec::new();
        let mut k: usize = 0;
        while k < N_FREQS
            invariant
                self.wf(),
                k <= N_FREQS,
                es.len() == k,
                forall|j: int| 0 <= j < k ==> #[trigger] es[j] == self.energies()[j],
                forall|j: int|
                    0 <= j < k ==> -4 * (Q_BOUND as int) * (Q_BOUND as int) <= #[trigger] es[j]
                        <= 4 * (Q_BOUND as int) * (Q_BOUND as int),
            decreases N_FREQS - k,
        {
            let q1k: i128 = self.q1[k] as i128;
            let q2k: i128 = self.q2[k] as i128;
            let c: i128 = self.cfg.coeffs[k] as i128;
            proof {
                let q: int = Q_BOUND as int;
                lemma_abs_mul(q1k as int, q1k as int, q, q);
                lemma_abs_mul(q2k as int, q2k as int, q, q);
                lemma_abs_mul(c as int, q1k as int, 32768, q);
                lemma_abs_mul(c as int * q1k as int, q2k as int, 32768 * q, q);
                assert(32768 * q * q == (2 * q * q) * 16384) by (nonlinear_arith);
            }
            let e: i128 = q1k * q1k + q2k * q2k - trunc_div_i128(c * q1k * q2k, 16384);
            proof {
                lemma_trunc_div_bound(
                    c as int * q1k as int * q2k as int,
                    16384,
                    2 * (Q_BOUND as int) * (Q_BOUND as int),
                );
            }
            assert(e == self.energies()[k as int]);
            es.push(e);
            k = k + 1;
        }

        let mut ri: usize = 0;
        let mut rv: i128 = es[0];
        if es[1] > rv {
            ri = 1;
            rv = es[1];
        }
        if es[2] > rv {
            ri = 2;
            rv = es[2];
        }
        if es[3] > rv {
            ri = 3;
            rv = es[3];
        }
        let mut ci: usize = 4;
        let mut cv: i128 = es[4];
        if es[5] > cv {
            ci = 5;
            cv = es[5];
        }
        if es[6] > cv {
            ci = 6;
            cv = es[6];
        }
        let r2: i128 = if ri == 0 {
            max2_i128(max2_i128(es[1], es[2]), es[3])
        } else if ri == 1 {
            max2_i128(max2_i128(es[0], es[2]), es[3])
        } else if ri == 2 {
            max2_i128(max2_i128(es[0], es[1]), es[3])
        } else {
            max2_i128(max2_i128(es[0], es[1]), es[2])
        };
        let c2: i128 = if ci == 4 {
            max2_i128(es[5], es[6])
        } else if ci == 5 {
            max2_i128(es[4], es[6])
        } else {
            max2_i128(es[4], es[5])
        };
        proof {
            assert(ri == row_max_idx(self.energies()));
            assert(ci == col_max_idx(self.energies()));
            assert(r2 == row_runner_up(self.energies()));
            assert(c2 == col_runner_up(self.energies()));
            let q: int = Q_BOUND as int;
            lemma_abs_mul(rv as int, 100, 4 * q * q, 100);
            lemma_abs_mul(cv as int, 100, 4 * q * q, 100);
            lemma_abs_mul(r2 as int, self.cfg.thresh_rel_peaks[ri as int] as int, 4 * q * q, 1000000);
            lemma_abs_mul(c2 as int, self.cfg.thresh_rel_peaks[ci as int] as int, 4 * q * q, 1000000);
            lemma_abs_mul(
                self.cfg.thresh_rel_energy as int,
                self.total_energy as int,
                1000000,
                100000int * 1073741824,
            );
        }
        if rv < self.cfg.thresh_mag as i128 || cv < self.cfg.thresh_mag as i128
            || rv * 100 < r2 * (self.cfg.thresh_rel_peaks[ri] as i128)
            || cv * 100 < c2 * (self.cfg.thresh_rel_peaks[ci] as i128)
            || rv + cv < (self.cfg.thresh_rel_energy as i128) * (self.total_energy as i128) {
            NULL
        } else if ri == 3 && ci == 5 {
            0u8
        } else {
            (ri * 3 + ci - 3) as u8
        }
    }
}

/// Bounds multiply: `|a| ≤ aa` and `|b| ≤ bb` give `|a·b| ≤ aa·bb`.
proof fn lemma_abs_mul(a: int, b: int, aa: int, bb: int)
    requires
        0 <= aa,
        0 <= bb,
        -aa <= a <= aa,
        -bb <= b <= bb,
    ensures
        -(aa * bb) <= a * b <= aa * bb,
{
    assert(-(aa * bb) <= a * b <= aa * bb) by (nonlinear_arith)
        requires
            0 <= aa,
            0 <= bb,
            -aa <= a <= aa,
            -bb <= b <= bb,
    ;
}

/// Truncating division shrinks magnitudes: `|a| ≤ b·d ⟹ |a/d| ≤ b`.
proof fn lemma_trunc_div_bound(a: int, d: int, b: int)
    requires
        1 <= d,
        0 <= b,
        -(b * d) <= a <= b * d,
    ensures
        -b <= trunc_div(a, d) <= b,
{
    if a >= 0 {
        assert(0 <= a / d <= b) by (nonlinear_arith)
            requires
                0 <= a <= b * d,
                1 <= d,
                0 <= b,
        ;
    } else {
        assert(0 <= (-a) / d <= b) by (nonlinear_arith)
            requires
                0 <= -a <= b * d,
                1 <= d,
                0 <= b,
        ;
    }
}

/// Exact truncating division of an `i64` by a small positive divisor.
fn trunc_div_i64(a: i64, d: i64) -> (r: i64)
    requires
        1 <= d <= 32768,
        -0x4000000000000000 <= a <= 0x4000000000000000,
    ensures
        r as int == trunc_div(a as int, d as int),
{
    proof {
        assert(0x4000000000000000 * d >= 0x4000000000000000) by (nonlinear_arith)
            requires
                1 <= d,
        ;
    }
    if a >= 0 {
        proof {
            lemma_trunc_div_bound(a as int, d as int, 0x4000000000000000);
        }
        ((a as u64) / (d as u64)) as i64
    } else {
        proof {
            lemma_trunc_div_bound((-a) as int, d as int, 0x4000000000000000);
        }
        let q: u64 = ((-a) as u64) / (d as u64);
        -(q as i64)
    }
}

/// Exact truncating division of an `i128` by a small positive divisor.
fn trunc_div_i128(a: i128, d: i128) -> (r: i128)
    requires
        1 <= d <= 32768,
        -0x20000000000000000000000000000000 <= a <= 0x20000000000000000000000000000000,
    ensures
        r as int == trunc_div(a as int, d as int),
{
    proof {
        assert(0x20000000000000000000000000000000 * d >= 0x20000000000000000000000000000000)
            by (nonlinear_arith)
            requires
                1 <= d,
        ;
    }
    if a >= 0 {
        proof {
            lemma_trunc_div_bound(a as int, d as int, 0x20000000000000000000000000000000);
        }
        ((a as u128) / (d as u128)) as i128
    } else {
        proof {
            lemma_trunc_div_bound((-a) as int, d as int, 0x20000000000000000000000000000000);
        }
        let q: u128 = ((-a) as u128) / (d as u128);
        -(q as i128)
    }
}

fn max2_i128(a: i128, b: i128) -> (r: i128)
    ensures
        r as int == max2(a as int, b as int),
{
    if a >= b {
        a
    } else {
        b
    }
}

/// Mathematical state of the whole detection pipeline: the resonator bank,
/// the running window, the debouncer, and the digits emitted so far.
pub ghost struct GzModel {
    pub q1s: Seq<int>,
    pub q2s: Seq<int>,
    pub energy: int,
    pub idx: int,
    pub deb: DigState,
    pub out: Seq<u8>,
}

pub open spec fn gz_init() -> GzModel {
    GzModel {
        q1s: Seq::new(N_FREQS as nat, |k: int| 0),
        q2s: Seq::new(N_FREQS as nat, |k: int| 0),
        energy: 0,
        idx: 0,
        deb: fresh_dig_state(),
        out: Seq::empty(),
    }
}

pub open spec fn energies_of(q1s: Seq<int>, q2s: Seq<int>, cs: Seq<int>) -> Seq<int> {
    Seq::new(N_FREQS as nat, |k: int| resonator_energy(q1s[k], q2s[k], cs[k]))
}

/// One sample through the pipeline: window the sample, drive the resonators,
/// and at a window boundary decide the digit, debounce it, and start afresh.
pub open spec fn gz_step(m: GzModel, s: int, cfg: GoertzelConfig) -> GzModel {
    let x = windowed_sample(s, cfg.window[m.idx] as int);
    let q1s = Seq::new(
        N_FREQS as nat,
        |k: int| resonator_step(m.q1s[k], m.q2s[k], cfg.coeffs[k] as int, x),
    );
    let q2s = m.q1s;
    let energy = m.energy + x * x;
    if m.idx + 1 == cfg.window.len() {
        let cs = Seq::new(N_FREQS as nat, |k: int| cfg.coeffs[k] as int);
        let d = digit_decision(energies_of(q1s, q2s, cs), energy, cfg);
        let st = m.deb.step(d);
        GzModel {
            q1s: Seq::new(N_FREQS as nat, |k: int| 0),
            q2s: Seq::new(N_FREQS as nat, |k: int| 0),
            energy: 0,
            idx: 0,
            deb: st.0,
            out: if st.1 is Some {
                m.out.push(st.1.unwrap())
            } else {
                m.out
            },
        }
    } else {
        GzModel { q1s, q2s, energy, idx: m.idx + 1, deb: m.deb, out: m.out }
    }
}

/// The pipeline over a whole sample sequence.
pub open spec fn gz_run(samples: Seq<int>, cfg: GoertzelConfig) -> GzModel
    decreases samples.len(),
{
    if samples.len() == 0 {
        gz_init()
    } else {
        gz_step(gz_run(samples.drop_last(), cfg), samples.last(), cfg)
    }
}

/// Run the whole DTMF detection pipeline over a finished recording: windowed
/// Goertzel analysis, per-window digit decision, and debouncing.  Returns
/// the clean digit events, in order.
pub fn goertzeliter(samples: &Vec<i16>, cfg: GoertzelConfig) -> (digs: Vec<u8>)
    requires
        cfg.wf(),
    ensures
        digs@ == gz_run(samples@.map(|i: int, s: i16| s as int), cfg).out,
{
    let ghost ints: Seq<int> = samples@.map(|i: int, s: i16| s as int);
    let ghost cfg0: GoertzelConfig = cfg;
    let mut g = Goertzeler::new(cfg);
    let mut deb = DigState::default();
    let mut digs: Vec<u8> = Vec::new();
    let mut i: usize = 0;
    while i < samples.len()
        invariant
            i <= samples.len(),
            ints == samples@.map(|j: int, s: i16| s as int),
            g.wf(),
            deb.wf(),
            g.cfg == cfg0,
            ({
                let m = gz_run(ints.take(i as int), g.cfg);
                &&& m.idx == g.idx
                &&& m.energy == g.total_energy
                &&& m.deb == deb
                &&& m.out == digs@
                &&& m.idx < g.cfg.window.len()
                &&& forall|k: int| 0 <= k < N_FREQS ==> m.q1s[k] == #[trigger] g.q1[k]
                &&& forall|k: int| 0 <= k < N_FREQS ==> m.q2s[k] == #[trigger] g.q2[k]
            }),
        decreases samples.len() - i,
    {
        let ghost m = gz_run(ints.take(i as int), g.cfg);
        let ghost m2 = gz_step(m, ints[i as int], g.cfg);
        proof {
            assert(ints.take(i as int + 1).drop_last() =~= ints.take(i as int));
            assert(ints.take(i as int + 1).last() == ints[i as int]);
            assert(gz_run(ints.take(i as int + 1), g.cfg) == m2);
        }
        g.push(samples[i]);
        proof {
            assert(forall|k: int|
                0 <= k < N_FREQS ==> #[trigger] g.q1[k] == resonator_step(
                    m.q1s[k],
                    m.q2s[k],
                    g.cfg.coeffs[k] as int,
                    windowed_sample(ints[i as int], g.cfg.window[m.idx] as int),
                ));
        }
        if g.idx == g.cfg.window.len() {
            let d = g.get_digit();
            proof {
                let cs = Seq::new(N_FREQS as nat, |k: int| g.cfg.coeffs[k] as int);
                assert(g.energies() =~= energies_of(
                    Seq::new(
                        N_FREQS as nat,
                        |k: int| resonator_step(
                            m.q1s[k],
                            m.q2s[k],
                            g.cfg.coeffs[k] as int,
                            windowed_sample(ints[i as int], g.cfg.window[m.idx] as int),
                        ),
                    ),
                    m.q1s,
                    cs,
                ));
            }
            if let Some(dig) = deb.poosh(d) {
                digs.push(dig);
            }
            g.reset();
        }
        i = i + 1;
    }
    proof {
        assert(ints.take(i as int) =~= ints);
    }
    digs
}

/// Silence produces nothing: over any all-zero recording the resonators stay
/// at rest, every window reads as [`NULL`], and the debouncer emits no digit.
pub proof fn lemma_goertzel_silence(samples: Seq<int>, cfg: GoertzelConfig)
    requires
        cfg.wf(),
        forall|i: int| 0 <= i < samples.len() ==> samples[i] == 0,
    ensures
        gz_run(samples, cfg).out =~= Seq::<u8>::empty(),
        gz_run(samples, cfg).deb == fresh_dig_state(),
        gz_run(samples, cfg).energy == 0,
        0 <= gz_run(samples, cfg).idx < cfg.window.len(),
        forall|k: int| 0 <= k < N_FREQS ==> gz_run(samples, cfg).q1s[k] == 0,
        forall|k: int| 0 <= k < N_FREQS ==> gz_run(samples, cfg).q2s[k] == 0,
    decreases samples.len(),
{
    if samples.len() == 0 {
    } else {
        lemma_goertzel_silence(samples.drop_last(), cfg);
        let m = gz_run(samples.drop_last(), cfg);
        let s = samples.last();
        assert(s == 0);
        let x = windowed_sample(0, cfg.window[m.idx] as int);
        assert(x == 0);
        assert(forall|k: int|
            0 <= k < N_FREQS ==> resonator_step(#[trigger] m.q1s[k], m.q2s[k], cfg.coeffs[k] as int, 0)
                == 0);
        if m.idx + 1 == cfg.window.len() {
            let q1s = Seq::new(
                N_FREQS as nat,
                |k: int| resonator_step(m.q1s[k], m.q2s[k], cfg.coeffs[k] as int, x),
            );
            let cs = Seq::new(N_FREQS as nat, |k: int| cfg.coeffs[k] as int);
            let es = energies_of(q1s, m.q1s, cs);
            assert(forall|k: int| 0 <= k < N_FREQS ==> es[k] == 0);
            assert(digit_decision(es, 0, cfg) == NULL);
            assert(fresh_dig_state().step(NULL) == (fresh_dig_state(), Option::<u8>::None));
        }
    }
}

} // verus!
