//! The integer side of time-domain interpolation: which path `interpolatef`
//! takes and with which lengths, how an impulse response is laid out, and
//! which input samples and which coefficients meet in each output sample.
//!
//! The products and sums of samples with coefficients are floating-point
//! work; they reach the library as closures, and the contracts here say which
//! samples and which coefficients each call of them combines.
use vstd::prelude::*;
use vstd::arithmetic::div_mod::{lemma_fundamental_div_mod, lemma_fundamental_div_mod_converse};
use crate::layout::{sample_step, spec_sample_step};
use crate::vector::{DspVec, every_second, interleave, spec_imag_parts, spec_interleave, spec_points, spec_real_parts};
use crate::wrapping::{lemma_wrapping_window_in_bounds, spec_wrapping_window, wrapping_window};

verus! {

/// The longest convolution for which the SIMD path is taken.
pub const SIMD_MAX_CONV_LEN: usize = 202;

/// The shortest result for which the SIMD path is taken.
pub const SIMD_MIN_NEW_LEN: usize = 2000;

/// How `interpolatef` computes its result.
#[derive(Clone, Copy, Debug, PartialEq, Eq, Structural)]
pub enum InterpolationPath {
    /// With precomputed impulse responses and SIMD registers, for an
    /// interpolation factor that is an integer.
    Simd { factor: usize },
    /// Sample by sample on complex data.
    ComplexScalar,
    /// Sample by sample on real data.
    RealScalar,
}

/// What `interpolatef` does before it computes any value.
#[derive(Clone, Copy, Debug, PartialEq, Eq, Structural)]
pub struct InterpolationPlan {
    /// The convolution length, limited to half the number of points.
    pub conv_len: usize,
    /// The length of the result, made even.
    pub new_len: usize,
    /// How the result is computed.
    pub path: InterpolationPath,
}

/// The convolution length that `interpolatef` uses: at most half the number
/// of points.
pub open spec fn spec_limited_conv_len(conv_len: int, points: int) -> int {
    if conv_len > points / 2 {
        points / 2
    } else {
        conv_len
    }
}

/// `n` rounded up to the next even number.
pub open spec fn spec_even_len(n: int) -> int {
    n + n % 2
}

/// The path that `interpolatef` takes.
pub open spec fn spec_interpolation_path(
    conv_len: int,
    new_len: int,
    is_complex: bool,
    integral_factor: Option<usize>,
) -> InterpolationPath {
    if conv_len <= SIMD_MAX_CONV_LEN && new_len >= SIMD_MIN_NEW_LEN && integral_factor is Some {
        InterpolationPath::Simd { factor: integral_factor->0 }
    } else if is_complex {
        InterpolationPath::ComplexScalar
    } else {
        InterpolationPath::RealScalar
    }
}

impl<T: Copy> DspVec<T> {
    /// Plans `interpolatef` on this vector. `rounded_new_len` is the length
    /// times the interpolation factor, rounded to an integer;
    /// `integral_factor` is that factor rounded, where it lies within `1e-6`
    /// of an integer, and `None` otherwise.
    pub fn plan_interpolatef(
        &self,
        conv_len: usize,
        rounded_new_len: usize,
        integral_factor: Option<usize>,
    ) -> (plan: InterpolationPlan)
        requires
            rounded_new_len < usize::MAX,
        ensures
            plan.conv_len == spec_limited_conv_len(
                conv_len as int,
                spec_points(self.data@.len() as int, self.is_complex),
            ),
            plan.new_len == spec_even_len(rounded_new_len as int),
            plan.path == spec_interpolation_path(
                plan.conv_len as int,
                plan.new_len as int,
                self.is_complex,
                integral_factor,
            ),
    {
        let points_half = self.points() / 2;
        let conv_len = if conv_len > points_half {
            points_half
        } else {
            conv_len
        };
        let new_len = rounded_new_len + rounded_new_len % 2;
        let path = match integral_factor {
            Some(factor) if conv_len <= SIMD_MAX_CONV_LEN && new_len >= SIMD_MIN_NEW_LEN => {
                InterpolationPath::Simd { factor }
            },
            _ => if self.is_complex() {
                InterpolationPath::ComplexScalar
            } else {
                InterpolationPath::RealScalar
            },
        };
        InterpolationPlan { conv_len, new_len, path }
    }
}

/// The layout of an impulse response: sample `k` of `samples` at index
/// `k * step`, `zero` in between.
pub open spec fn spec_impulse_layout<T>(samples: Seq<T>, zero: T, step: int) -> Seq<T> {
    Seq::new(
        (step * samples.len()) as nat,
        |i: int|
            if i % step == 0 {
                samples[i / step]
            } else {
                zero
            },
    )
}

/// Lays out the samples of an impulse response as a real vector or, where
/// `is_complex` holds, as a complex vector with the samples as real parts and
/// `zero` as imaginary parts.
pub fn impulse_response_layout<T: Copy>(samples: &Vec<T>, zero: T, is_complex: bool) -> (r: Vec<T>)
    requires
        2 * samples@.len() <= usize::MAX,
    ensures
        r@ == spec_impulse_layout(samples@, zero, spec_sample_step(is_complex)),
{
    let step = sample_step(is_complex);
    let n = samples.len();
    let data_len = step * n;
    let mut r: Vec<T> = Vec::new();
    let mut i: usize = 0;
    while i < data_len
        invariant
            step == spec_sample_step(is_complex),
            n == samples@.len(),
            data_len == step * n,
            i <= data_len,
            r@.len() == i,
            forall|k: int|
                0 <= k < i ==> #[trigger] r@[k] == spec_impulse_layout(samples@, zero, step as int)[k],
        decreases data_len - i,
    {
        if i % step == 0 {
            assert(i / step < n) by (nonlinear_arith)
                requires
                    i < step * n,
                    step == 1 || step == 2,
            ;
            r.push(samples[i / step]);
        } else {
            r.push(zero);
        }
        i = i + 1;
    }
    assert(r@ =~= spec_impulse_layout(samples@, zero, step as int));
    r
}

/// One impulse response for each of `factor` shifts, each of
/// `2 * conv_len + 1` samples laid out as `impulse_response_layout` does:
/// sample `k` of response `shift` is what `sample(shift, k)` gives.
pub fn impulse_responses<T: Copy, F: Fn(usize, usize) -> T>(
    factor: usize,
    conv_len: usize,
    is_complex: bool,
    zero: T,
    sample: F,
) -> (r: Vec<Vec<T>>)
    requires
        2 * (2 * conv_len + 1) <= usize::MAX,
        forall|shift: usize, k: usize| call_requires(sample, (shift, k)),
    ensures
        r@.len() == factor,
        forall|shift: int|
            0 <= shift < factor ==> #[trigger] r@[shift]@.len() == spec_sample_step(is_complex) * (2
                * conv_len + 1),
        forall|shift: int, k: int|
            0 <= shift < factor && 0 <= k < 2 * conv_len + 1 ==> call_ensures(
                sample,
                (shift as usize, k as usize),
                #[trigger] r@[shift]@[spec_sample_step(is_complex) * k],
            ),
        forall|shift: int, i: int|
            0 <= shift < factor && 0 <= i < r@[shift]@.len() && i % spec_sample_step(is_complex)
                != 0 ==> #[trigger] r@[shift]@[i] == zero,
{
    let count = 2 * conv_len + 1;
    let step = sample_step(is_complex);
    let mut r: Vec<Vec<T>> = Vec::new();
    let mut shift: usize = 0;
    while shift < factor
        invariant
            count == 2 * conv_len + 1,
            2 * count <= usize::MAX,
            step == spec_sample_step(is_complex),
            shift <= factor,
            r@.len() == shift,
            forall|shift: usize, k: usize| call_requires(sample, (shift, k)),
            forall|s: int| 0 <= s < shift ==> #[trigger] r@[s]@.len() == step * count,
            forall|s: int, k: int|
                0 <= s < shift && 0 <= k < count ==> call_ensures(
                    sample,
                    (s as usize, k as usize),
                    #[trigger] r@[s]@[step * k],
                ),
            forall|s: int, i: int|
                0 <= s < shift && 0 <= i < r@[s]@.len() && i % (step as int) != 0 ==> #[trigger] r@[s]@[i]
                    == zero,
        decreases factor - shift,
    {
        let mut samples: Vec<T> = Vec::new();
        let mut k: usize = 0;
        while k < count
            invariant
                count == 2 * conv_len + 1,
                k <= count,
                samples@.len() == k,
                forall|shift: usize, k: usize| call_requires(sample, (shift, k)),
                forall|m: int| 0 <= m < k ==> call_ensures(sample, (shift, m as usize), #[trigger] samples@[m]),
            decreases count - k,
        {
            let value = sample(shift, k);
            samples.push(value);
            k = k + 1;
        }
        let response = impulse_response_layout(&samples, zero, is_complex);
        proof {
            assert forall|k: int| 0 <= k < count implies call_ensures(
                sample,
                (shift, k as usize),
                #[trigger] response@[step * k],
            ) by {
                assert((step * k) % (step as int) == 0 && (step * k) / (step as int) == k) by (nonlinear_arith)
                    requires
                        step == 1 || step == 2,
                ;
            }
        }
        let ghost before = r@;
        r.push(response);
        proof {
            assert forall|s: int, k: int| 0 <= s < shift + 1 && 0 <= k < count implies call_ensures(
                sample,
                (s as usize, k as usize),
                #[trigger] r@[s]@[step * k],
            ) by {
                if s < shift {
                    assert(r@[s] == before[s]);
                } else {
                    assert(r@[s] == response);
                }
            }
            assert forall|s: int, i: int|
                0 <= s < shift + 1 && 0 <= i < r@[s]@.len() && i % (step as int) != 0 implies #[trigger] r@[s]@[i]
                == zero by {
                if s < shift {
                    assert(r@[s] == before[s]);
                } else {
                    assert(r@[s] == response);
                }
            }
            assert forall|s: int| 0 <= s < shift + 1 implies #[trigger] r@[s]@.len() == step * count by {
                if s < shift {
                    assert(r@[s] == before[s]);
                }
            }
        }
        shift = shift + 1;
    }
    r
}

/// The input positions that the scalar path of `interpolatef` reads for one
/// output sample: `2 * conv_len + 1` positions of a buffer of `data_len`
/// samples, starting `conv_len` samples before `rounded`, the output sample's
/// position scaled back to the input and rounded down.
pub fn scalar_step_window(rounded: isize, conv_len: usize, data_len: usize) -> (r: Vec<usize>)
    requires
        data_len > 0,
        2 * conv_len + 1 <= usize::MAX,
    ensures
        r@.len() == 2 * conv_len + 1,
        forall|k: int|
            0 <= k < r@.len() ==> #[trigger] r@[k] as int == spec_wrapping_window(
                rounded - conv_len - 1,
                (2 * conv_len + 1) as nat,
                data_len as int,
            )[k],
{
    let pos: i128 = rounded as i128 - conv_len as i128 - 1;
    wrapping_window(pos, 2 * conv_len + 1, data_len)
}

/// What one output sample of the SIMD path combines: the
/// precomputed impulse response `vector`, the input positions `data`, and
/// for each of them the index of its coefficient in that impulse response.
pub struct StepTaps {
    pub vector: usize,
    pub data: Vec<usize>,
    pub coefficients: Vec<usize>,
}

/// The taps of output sample `i` on the SIMD path: impulse
/// response `i % factor`, the `2 * conv_len + 1` input positions after
/// `i / factor - conv_len` (wrapping around `data_len`), and coefficient
/// `step * k` for the `k`-th of them.
pub fn simd_step_taps(i: usize, factor: usize, conv_len: usize, data_len: usize, is_complex: bool) -> (r:
    StepTaps)
    requires
        factor > 0,
        data_len > 0,
        2 * (2 * conv_len + 1) <= usize::MAX,
    ensures
        r.vector == i % factor,
        r.data@.len() == 2 * conv_len + 1,
        r.coefficients@.len() == 2 * conv_len + 1,
        forall|k: int|
            0 <= k < r.data@.len() ==> #[trigger] r.data@[k] as int == spec_wrapping_window(
                i as int / factor as int - conv_len,
                (2 * conv_len + 1) as nat,
                data_len as int,
            )[k],
        forall|k: int|
            0 <= k < r.coefficients@.len() ==> #[trigger] r.coefficients@[k] == spec_sample_step(
                is_complex,
            ) * k,
{
    let rounded = i / factor;
    let count = 2 * conv_len + 1;
    let pos: i128 = rounded as i128 - conv_len as i128;
    let data = wrapping_window(pos, count, data_len);
    let step = sample_step(is_complex);
    let mut coefficients: Vec<usize> = Vec::new();
    let mut k: usize = 0;
    while k < count
        invariant
            count == 2 * conv_len + 1,
            2 * count <= usize::MAX,
            step == spec_sample_step(is_complex),
            k <= count,
            coefficients@.len() == k,
            forall|j: int| 0 <= j < k ==> #[trigger] coefficients@[j] == step * j,
        decreases count - k,
    {
        coefficients.push(step * k);
        k = k + 1;
    }
    StepTaps { vector: i % factor, data, coefficients }
}

/// Where output sample `i` of the SIMD path reads when registers of several
/// samples compute it: the index `selection` of the shifted impulse response,
/// and `simd_end`, the register after the last one of the input window.
#[derive(Clone, Copy, Debug, PartialEq, Eq, Structural)]
pub struct SimdSelection {
    pub selection: usize,
    pub simd_end: usize,
}

/// `i / factor` rounded up.
pub open spec fn spec_ceil_div(i: int, factor: int) -> int {
    (i + factor - 1) / factor
}

/// How far `i` lies below the next multiple of `factor`.
pub open spec fn spec_factor_shift(i: int, factor: int) -> int {
    if i % factor == 0 {
        0
    } else {
        factor - i % factor
    }
}

/// Selects the shifted impulse response and the input registers for output
/// sample `i` on the SIMD path, where a register holds `simd_len` samples.
pub fn simd_selection(i: usize, factor: usize, conv_len: usize, simd_len: usize) -> (r: SimdSelection)
    requires
        factor > 0,
        simd_len > 0,
        i + factor <= usize::MAX,
        spec_ceil_div(i as int, factor as int) + conv_len + simd_len <= usize::MAX,
        factor * simd_len <= usize::MAX,
    ensures
        ({
            let end = spec_ceil_div(i as int, factor as int) + conv_len;
            &&& r.selection == spec_factor_shift(i as int, factor as int) * simd_len + end
                % simd_len as int
            &&& r.simd_end == spec_ceil_div(end, simd_len as int)
        }),
{
    let rounded = (i + factor - 1) / factor;
    let end = rounded + conv_len;
    let simd_end = (end + simd_len - 1) / simd_len;
    let simd_shift = end % simd_len;
    let remainder = i % factor;
    let factor_shift = if remainder == 0 {
        0
    } else {
        factor - remainder
    };
    assert(factor_shift * simd_len + simd_shift < factor * simd_len) by (nonlinear_arith)
        requires
            factor_shift < factor,
            simd_shift < simd_len,
    ;
    let selection = factor_shift * simd_len + simd_shift;
    SimdSelection { selection, simd_end }
}

/// Rounding `i / factor` up adds exactly the factor shift: the shifted
/// impulse response that the SIMD path selects makes up for the rounding.
pub proof fn lemma_ceil_div_factor_shift(i: int, factor: int)
    requires
        i >= 0,
        factor > 0,
    ensures
        spec_ceil_div(i, factor) * factor == i + spec_factor_shift(i, factor),
        0 <= spec_factor_shift(i, factor) < factor,
{
    lemma_fundamental_div_mod(i, factor);
    let q = i / factor;
    let r = i % factor;
    assert(i == q * factor + r) by (nonlinear_arith)
        requires
            i == factor * q + r,
    ;
    if r == 0 {
        lemma_fundamental_div_mod_converse(i + factor - 1, factor, q, factor - 1);
    } else {
        assert(i + factor - 1 == (q + 1) * factor + (r - 1)) by (nonlinear_arith)
            requires
                i == q * factor + r,
        ;
        lemma_fundamental_div_mod_converse(i + factor - 1, factor, q + 1, r - 1);
        assert((q + 1) * factor == i + (factor - r)) by (nonlinear_arith)
            requires
                i == q * factor + r,
        ;
    }
}

/// The selected shifted impulse response exists: there are `factor`
/// responses with `simd_len` shifts each. And `simd_end` registers of
/// `simd_len` samples reach the end of the input window, one register less
/// does not.
pub proof fn lemma_simd_selection_in_range(i: int, factor: int, conv_len: int, simd_len: int)
    requires
        i >= 0,
        factor > 0,
        conv_len >= 0,
        simd_len > 0,
    ensures
        ({
            let end = spec_ceil_div(i, factor) + conv_len;
            let simd_end = spec_ceil_div(end, simd_len);
            &&& 0 <= spec_factor_shift(i, factor) * simd_len + end % simd_len < factor * simd_len
            &&& (simd_end - 1) * simd_len < end <= simd_end * simd_len
        }),
{
    lemma_ceil_div_factor_shift(i, factor);
    let end = spec_ceil_div(i, factor) + conv_len;
    assert(end >= 0) by {
        lemma_ceil_div_factor_shift(i, factor);
        assert(spec_ceil_div(i, factor) >= 0) by (nonlinear_arith)
            requires
                spec_ceil_div(i, factor) * factor == i + spec_factor_shift(i, factor),
                i >= 0,
                spec_factor_shift(i, factor) >= 0,
                factor > 0,
        ;
    }
    let fs = spec_factor_shift(i, factor);
    let shift = end % simd_len;
    assert(0 <= fs * simd_len + shift < factor * simd_len) by (nonlinear_arith)
        requires
            0 <= fs < factor,
            0 <= shift < simd_len,
    ;
    lemma_ceil_div_factor_shift(end, simd_len);
    let se = spec_ceil_div(end, simd_len);
    let es = spec_factor_shift(end, simd_len);
    assert((se - 1) * simd_len < end <= se * simd_len) by (nonlinear_arith)
        requires
            se * simd_len == end + es,
            0 <= es < simd_len,
    ;
}

/// `partial` lists the running values of the sum that makes output sample
/// `i` on the scalar path: it starts at `zero`, and each next value is what
/// `tap` makes of the previous one, the `k`-th sample read (the one at
/// `positions[k]` in `data`), `i` and `k`.
pub open spec fn is_tap_accumulation<S, F: Fn(S, S, usize, usize) -> S>(
    tap: F,
    data: Seq<S>,
    i: usize,
    positions: Seq<int>,
    zero: S,
    partial: Seq<S>,
) -> bool {
    &&& partial.len() == positions.len() + 1
    &&& partial[0] == zero
    &&& forall|k: int|
        0 <= k < positions.len() ==> call_ensures(
            tap,
            (partial[k], data[positions[k]], i, k as usize),
            #[trigger] partial[k + 1],
        )
}

/// `partial` lists the running values of a weighted sum: it starts at
/// `zero`, and each next value is what `mac` makes of the previous one, the
/// `k`-th sample read (the one at `positions[k]` in `data`) and the `k`-th
/// weight.
pub open spec fn is_weighted_accumulation<S, T, F: Fn(S, S, T) -> S>(
    mac: F,
    data: Seq<S>,
    positions: Seq<int>,
    weights: Seq<T>,
    zero: S,
    partial: Seq<S>,
) -> bool {
    &&& partial.len() == positions.len() + 1
    &&& partial[0] == zero
    &&& forall|k: int|
        0 <= k < positions.len() ==> call_ensures(
            mac,
            (partial[k], data[positions[k]], weights[k]),
            #[trigger] partial[k + 1],
        )
}

/// `value` is a sum that `tap` can make for output sample `i` from the
/// samples of `data` at `positions`, starting at `zero`.
pub open spec fn is_tap_sum<S, F: Fn(S, S, usize, usize) -> S>(
    tap: F,
    data: Seq<S>,
    i: usize,
    positions: Seq<int>,
    zero: S,
    value: S,
) -> bool {
    exists|partial: Seq<S>|
        is_tap_accumulation(tap, data, i, positions, zero, partial) && partial.last() == value
}

/// `value` is a weighted sum that `mac` can make from the samples of `data`
/// at `positions` and from `weights`, starting at `zero`.
pub open spec fn is_weighted_sum<S, T, F: Fn(S, S, T) -> S>(
    mac: F,
    data: Seq<S>,
    positions: Seq<int>,
    weights: Seq<T>,
    zero: S,
    value: S,
) -> bool {
    exists|partial: Seq<S>|
        is_weighted_accumulation(mac, data, positions, weights, zero, partial) && partial.last()
            == value
}

/// The `count` weights of an impulse response that a step of the SIMD path
/// reads: every `step`-th value of `vector`, from the first one on.
pub open spec fn spec_step_weights<T>(vector: Seq<T>, step: int, count: nat) -> Seq<T> {
    Seq::new(count, |k: int| vector[step * k])
}

/// The scalar path of `interpolatef`. Output sample `i` is the sum over the
/// window of `2 * conv_len + 1` input samples that starts `conv_len` samples
/// before `rounded[i]` (the output sample's position scaled back to the input
/// and rounded down), wrapping around `data`; `tap(acc, sample, i, k)` adds
/// the `k`-th sample of that window, weighted, to the running value `acc`,
/// which starts at `zero`.
pub fn interpolate_scalar<S: Copy, F: Fn(S, S, usize, usize) -> S>(
    data: &Vec<S>,
    rounded: &Vec<isize>,
    conv_len: usize,
    zero: S,
    tap: F,
) -> (r: Vec<S>)
    requires
        rounded@.len() > 0 ==> data@.len() > 0,
        2 * conv_len + 1 <= usize::MAX,
        forall|acc: S, sample: S, i: usize, k: usize| call_requires(tap, (acc, sample, i, k)),
    ensures
        r@.len() == rounded@.len(),
        forall|i: int|
            0 <= i < r@.len() ==> is_tap_sum(
                tap,
                data@,
                i as usize,
                spec_wrapping_window(
                    rounded@[i] - conv_len - 1,
                    (2 * conv_len + 1) as nat,
                    data@.len() as int,
                ),
                zero,
                #[trigger] r@[i],
            ),
{
    let n = rounded.len();
    let len = data.len();
    let mut r: Vec<S> = Vec::new();
    let mut i: usize = 0;
    while i < n
        invariant
            n == rounded@.len(),
            len == data@.len(),
            n > 0 ==> len > 0,
            2 * conv_len + 1 <= usize::MAX,
            forall|acc: S, sample: S, i: usize, k: usize| call_requires(tap, (acc, sample, i, k)),
            i <= n,
            r@.len() == i,
            forall|j: int|
                0 <= j < i ==> is_tap_sum(
                    tap,
                    data@,
                    j as usize,
                    spec_wrapping_window(
                        rounded@[j] - conv_len - 1,
                        (2 * conv_len + 1) as nat,
                        data@.len() as int,
                    ),
                    zero,
                    #[trigger] r@[j],
                ),
        decreases n - i,
    {
        let window = scalar_step_window(rounded[i], conv_len, len);
        let ghost positions = spec_wrapping_window(
            rounded@[i as int] - conv_len - 1,
            (2 * conv_len + 1) as nat,
            len as int,
        );
        proof {
            lemma_wrapping_window_in_bounds(
                rounded@[i as int] - conv_len - 1,
                (2 * conv_len + 1) as nat,
                len as int,
            );
        }
        let mut acc = zero;
        let ghost mut partial: Seq<S> = seq![zero];
        let mut k: usize = 0;
        while k < window.len()
            invariant
                len == data@.len(),
                window@.len() == positions.len(),
                forall|m: int| 0 <= m < window@.len() ==> #[trigger] window@[m] as int == positions[m],
                forall|m: int| 0 <= m < positions.len() ==> 0 <= #[trigger] positions[m] < len,
                forall|acc: S, sample: S, i: usize, k: usize| call_requires(tap, (acc, sample, i, k)),
                k <= window@.len(),
                partial.len() == k + 1,
                partial[0] == zero,
                partial.last() == acc,
                forall|m: int|
                    0 <= m < k ==> call_ensures(
                        tap,
                        (partial[m], data@[positions[m]], i, m as usize),
                        #[trigger] partial[m + 1],
                    ),
            decreases window@.len() - k,
        {
            let p = window[k];
            assert(p as int == positions[k as int]);
            let next = tap(acc, data[p], i, k);
            proof {
                let before = partial;
                partial = partial.push(next);
                assert forall|m: int| 0 <= m < k + 1 implies call_ensures(
                    tap,
                    (partial[m], data@[positions[m]], i, m as usize),
                    #[trigger] partial[m + 1],
                ) by {
                    if m < k {
                        assert(partial[m] == before[m]);
                        assert(partial[m + 1] == before[m + 1]);
                    }
                }
            }
            acc = next;
            k = k + 1;
        }
        assert(is_tap_accumulation(tap, data@, i, positions, zero, partial));
        let ghost before = r@;
        r.push(acc);
        proof {
            assert forall|j: int| 0 <= j < i + 1 implies is_tap_sum(
                tap,
                data@,
                j as usize,
                spec_wrapping_window(
                    rounded@[j] - conv_len - 1,
                    (2 * conv_len + 1) as nat,
                    data@.len() as int,
                ),
                zero,
                #[trigger] r@[j],
            ) by {
                if j < i {
                    assert(r@[j] == before[j]);
                } else {
                    assert(r@[j] == acc);
                }
            }
        }
        i = i + 1;
    }
    r
}

/// The SIMD path of `interpolatef`, one output sample at a time, for the
/// `count` output samples from `first` on. Output sample `i` is the weighted sum
/// over the `2 * conv_len + 1` input samples after `i / factor - conv_len`,
/// wrapping around `data`, with every `step`-th value of impulse response
/// `vectors[i % factor]` as weights; `mac(acc, sample, weight)` adds one
/// weighted sample to the running value `acc`, which starts at `zero`.
pub fn interpolate_simd_steps<S: Copy, T: Copy, F: Fn(S, S, T) -> S>(
    data: &Vec<S>,
    first: usize,
    count: usize,
    factor: usize,
    conv_len: usize,
    vectors: &Vec<Vec<T>>,
    is_complex: bool,
    zero: S,
    mac: F,
) -> (r: Vec<S>)
    requires
        factor > 0,
        count > 0 ==> data@.len() > 0,
        first + count <= usize::MAX,
        2 * (2 * conv_len + 1) <= usize::MAX,
        vectors@.len() == factor,
        forall|v: int|
            0 <= v < factor ==> #[trigger] vectors@[v]@.len() >= spec_sample_step(is_complex) * (2
                * conv_len) + 1,
        forall|acc: S, sample: S, weight: T| call_requires(mac, (acc, sample, weight)),
    ensures
        r@.len() == count,
        forall|j: int|
            0 <= j < count ==> is_weighted_sum(
                mac,
                data@,
                spec_wrapping_window(
                    (first + j) / (factor as int) - conv_len,
                    (2 * conv_len + 1) as nat,
                    data@.len() as int,
                ),
                spec_step_weights(
                    vectors@[(first + j) % (factor as int)]@,
                    spec_sample_step(is_complex),
                    (2 * conv_len + 1) as nat,
                ),
                zero,
                #[trigger] r@[j],
            ),
{
    let len = data.len();
    let mut r: Vec<S> = Vec::new();
    let mut j: usize = 0;
    while j < count
        invariant
            len == data@.len(),
            count > 0 ==> len > 0,
            factor > 0,
            first + count <= usize::MAX,
            2 * (2 * conv_len + 1) <= usize::MAX,
            vectors@.len() == factor,
            forall|v: int|
                0 <= v < factor ==> #[trigger] vectors@[v]@.len() >= spec_sample_step(is_complex) * (2
                    * conv_len) + 1,
            forall|acc: S, sample: S, weight: T| call_requires(mac, (acc, sample, weight)),
            j <= count,
            r@.len() == j,
            forall|m: int|
                0 <= m < j ==> is_weighted_sum(
                    mac,
                    data@,
                    spec_wrapping_window(
                        (first + m) / (factor as int) - conv_len,
                        (2 * conv_len + 1) as nat,
                        data@.len() as int,
                    ),
                    spec_step_weights(
                        vectors@[(first + m) % (factor as int)]@,
                        spec_sample_step(is_complex),
                        (2 * conv_len + 1) as nat,
                    ),
                    zero,
                    #[trigger] r@[m],
                ),
        decreases count - j,
    {
        let i = first + j;
        let taps = simd_step_taps(i, factor, conv_len, len, is_complex);
        let vector = &vectors[taps.vector];
        let ghost positions = spec_wrapping_window(
            i as int / factor as int - conv_len,
            (2 * conv_len + 1) as nat,
            len as int,
        );
        let ghost weights = spec_step_weights(
            vector@,
            spec_sample_step(is_complex),
            (2 * conv_len + 1) as nat,
        );
        proof {
            lemma_wrapping_window_in_bounds(
                i as int / factor as int - conv_len,
                (2 * conv_len + 1) as nat,
                len as int,
            );
            assert(vector@.len() >= spec_sample_step(is_complex) * (2 * conv_len) + 1);
        }
        let mut acc = zero;
        let ghost mut partial: Seq<S> = seq![zero];
        let mut k: usize = 0;
        while k < taps.data.len()
            invariant
                len == data@.len(),
                taps.data@.len() == 2 * conv_len + 1,
                taps.coefficients@.len() == 2 * conv_len + 1,
                positions.len() == 2 * conv_len + 1,
                weights.len() == 2 * conv_len + 1,
                forall|m: int| 0 <= m < taps.data@.len() ==> #[trigger] taps.data@[m] as int == positions[m],
                forall|m: int| 0 <= m < positions.len() ==> 0 <= #[trigger] positions[m] < len,
                forall|m: int|
                    0 <= m < taps.coefficients@.len() ==> #[trigger] taps.coefficients@[m]
                        == spec_sample_step(is_complex) * m,
                vector@.len() >= spec_sample_step(is_complex) * (2 * conv_len) + 1,
                weights == spec_step_weights(
                    vector@,
                    spec_sample_step(is_complex),
                    (2 * conv_len + 1) as nat,
                ),
                forall|acc: S, sample: S, weight: T| call_requires(mac, (acc, sample, weight)),
                k <= taps.data@.len(),
                partial.len() == k + 1,
                partial[0] == zero,
                partial.last() == acc,
                forall|m: int|
                    0 <= m < k ==> call_ensures(
                        mac,
                        (partial[m], data@[positions[m]], weights[m]),
                        #[trigger] partial[m + 1],
                    ),
            decreases taps.data@.len() - k,
        {
            let p = taps.data[k];
            let c = taps.coefficients[k];
            assert(p as int == positions[k as int]);
            assert(c == spec_sample_step(is_complex) * k);
            assert(c < vector@.len()) by (nonlinear_arith)
                requires
                    c == spec_sample_step(is_complex) * k,
                    k < 2 * conv_len + 1,
                    spec_sample_step(is_complex) >= 1,
                    vector@.len() >= spec_sample_step(is_complex) * (2 * conv_len) + 1,
            ;
            let next = mac(acc, data[p], vector[c]);
            proof {
                let before = partial;
                partial = partial.push(next);
                assert(weights[k as int] == vector@[c as int]);
                assert forall|m: int| 0 <= m < k + 1 implies call_ensures(
                    mac,
                    (partial[m], data@[positions[m]], weights[m]),
                    #[trigger] partial[m + 1],
                ) by {
                    if m < k {
                        assert(partial[m] == before[m]);
                        assert(partial[m + 1] == before[m + 1]);
                    }
                }
            }
            acc = next;
            k = k + 1;
        }
        assert(is_weighted_accumulation(mac, data@, positions, weights, zero, partial));
        let ghost before = r@;
        r.push(acc);
        proof {
            assert forall|m: int| 0 <= m < j + 1 implies is_weighted_sum(
                mac,
                data@,
                spec_wrapping_window(
                    (first + m) / (factor as int) - conv_len,
                    (2 * conv_len + 1) as nat,
                    data@.len() as int,
                ),
                spec_step_weights(
                    vectors@[(first + m) % (factor as int)]@,
                    spec_sample_step(is_complex),
                    (2 * conv_len + 1) as nat,
                ),
                zero,
                #[trigger] r@[m],
            ) by {
                if m < j {
                    assert(r@[m] == before[m]);
                } else {
                    assert(r@[m] == acc);
                }
            }
        }
        j = j + 1;
    }
    r
}

/// `value` is output sample `i` of an interpolation of the samples `points`
/// by `plan`: on the SIMD path the weighted sum with impulse response
/// `vectors[i % factor]` over the window after `i / factor - conv_len`; on
/// a scalar path the sum that `tap` makes over the window that starts
/// `conv_len` samples before `rounded[i]`.
#[verifier::opaque]
pub open spec fn is_interpolated_point<T, FT: Fn(T, T, usize, usize) -> T, FM: Fn(T, T, T) -> T>(
    plan: InterpolationPlan,
    points: Seq<T>,
    rounded: Seq<isize>,
    vectors: Seq<Vec<T>>,
    is_complex: bool,
    zero: T,
    tap: FT,
    mac: FM,
    i: int,
    value: T,
) -> bool {
    let c = plan.conv_len as int;
    match plan.path {
        InterpolationPath::Simd { factor } => is_weighted_sum(
            mac,
            points,
            spec_wrapping_window(i / (factor as int) - c, (2 * c + 1) as nat, points.len() as int),
            spec_step_weights(
                vectors[i % (factor as int)]@,
                spec_sample_step(is_complex),
                (2 * c + 1) as nat,
            ),
            zero,
            value,
        ),
        _ => is_tap_sum(
            tap,
            points,
            i as usize,
            spec_wrapping_window(rounded[i] - c - 1, (2 * c + 1) as nat, points.len() as int),
            zero,
            value,
        ),
    }
}

/// The first `count` output samples of an interpolation of `points` by
/// `plan`, where `is_complex` tells how `vectors` are laid out.
fn interpolate_points<T: Copy, FT: Fn(T, T, usize, usize) -> T, FM: Fn(T, T, T) -> T>(
    points: &Vec<T>,
    count: usize,
    plan: InterpolationPlan,
    rounded: &Vec<isize>,
    vectors: &Vec<Vec<T>>,
    is_complex: bool,
    zero: T,
    tap: FT,
    mac: FM,
) -> (r: Vec<T>)
    requires
        count > 0 ==> points@.len() > 0,
        2 * (2 * plan.conv_len + 1) <= usize::MAX,
        !(plan.path is Simd) ==> rounded@.len() == count,
        plan.path matches InterpolationPath::Simd { factor } ==> {
            &&& factor > 0
            &&& vectors@.len() == factor
            &&& forall|v: int|
                0 <= v < factor ==> #[trigger] vectors@[v]@.len() >= spec_sample_step(is_complex) * (2
                    * plan.conv_len) + 1
        },
        forall|acc: T, sample: T, i: usize, k: usize| call_requires(tap, (acc, sample, i, k)),
        forall|acc: T, sample: T, weight: T| call_requires(mac, (acc, sample, weight)),
    ensures
        r@.len() == count,
        forall|i: int|
            0 <= i < count ==> is_interpolated_point(
                plan,
                points@,
                rounded@,
                vectors@,
                is_complex,
                zero,
                tap,
                mac,
                i,
                #[trigger] r@[i],
            ),
{
    reveal(is_interpolated_point);
    match plan.path {
        InterpolationPath::Simd { factor } => interpolate_simd_steps(
            points,
            0,
            count,
            factor,
            plan.conv_len,
            vectors,
            is_complex,
            zero,
            mac,
        ),
        _ => interpolate_scalar(points, rounded, plan.conv_len, zero, tap),
    }
}

/// The first `count` output samples of an interpolation of the complex
/// samples interleaved in `data` by `plan`, interleaved again: real parts
/// from real parts, imaginary parts from imaginary parts.
fn interpolate_complex_points<T: Copy, FT: Fn(T, T, usize, usize) -> T + Copy, FM: Fn(T, T, T) -> T + Copy>(
    data: &Vec<T>,
    count: usize,
    plan: InterpolationPlan,
    rounded: &Vec<isize>,
    vectors: &Vec<Vec<T>>,
    zero: T,
    tap: FT,
    mac: FM,
) -> (r: Vec<T>)
    requires
        data@.len() % 2 == 0,
        count > 0 ==> data@.len() > 0,
        2 * count <= usize::MAX,
        2 * (2 * plan.conv_len + 1) <= usize::MAX,
        !(plan.path is Simd) ==> rounded@.len() == count,
        plan.path matches InterpolationPath::Simd { factor } ==> {
            &&& factor > 0
            &&& vectors@.len() == factor
            &&& forall|v: int|
                0 <= v < factor ==> #[trigger] vectors@[v]@.len() >= 2 * (2 * plan.conv_len) + 1
        },
        forall|acc: T, sample: T, i: usize, k: usize| call_requires(tap, (acc, sample, i, k)),
        forall|acc: T, sample: T, weight: T| call_requires(mac, (acc, sample, weight)),
    ensures
        r@.len() == 2 * count,
        forall|i: int|
            0 <= i < count ==> is_interpolated_point(
                plan,
                spec_real_parts(data@),
                rounded@,
                vectors@,
                true,
                zero,
                tap,
                mac,
                i,
                #[trigger] r@[2 * i],
            ) && is_interpolated_point(
                plan,
                spec_imag_parts(data@),
                rounded@,
                vectors@,
                true,
                zero,
                tap,
                mac,
                i,
                r@[2 * i + 1],
            ),
{
    let re = every_second(data, 0);
    let im = every_second(data, 1);
    proof {
        assert(re@ =~= spec_real_parts(data@));
        assert(im@ =~= spec_imag_parts(data@));
    }
    let out_re = interpolate_points(&re, count, plan, rounded, vectors, true, zero, tap, mac);
    let out_im = interpolate_points(&im, count, plan, rounded, vectors, true, zero, tap, mac);
    let r = interleave(&out_re, &out_im);
    proof {
        assert forall|i: int| 0 <= i < count implies is_interpolated_point(
            plan,
            spec_real_parts(data@),
            rounded@,
            vectors@,
            true,
            zero,
            tap,
            mac,
            i,
            #[trigger] r@[2 * i],
        ) && is_interpolated_point(
            plan,
            spec_imag_parts(data@),
            rounded@,
            vectors@,
            true,
            zero,
            tap,
            mac,
            i,
            r@[2 * i + 1],
        ) by {
            assert((2 * i) % 2 == 0 && (2 * i) / 2 == i);
            assert((2 * i + 1) % 2 == 1 && (2 * i + 1) / 2 == i);
            assert(r@[2 * i] == out_re@[i]);
            assert(r@[2 * i + 1] == out_im@[i]);
        }
    }
    r
}

impl<T: Copy> DspVec<T> {
    /// Interpolates `self` as `plan` says. On a scalar path output sample
    /// `i` is the sum that `tap(acc, sample, i, k)` makes over the window
    /// that starts `conv_len` samples before `rounded[i]`; on the SIMD path
    /// it is the sum that `mac(acc, sample, weight)` makes with the
    /// impulse response `vectors[i % factor]`. Both sums start at `zero`. A
    /// complex vector is interpolated part by part: the real parts of the
    /// result from the real parts of `self`, the imaginary ones from the
    /// imaginary ones, with the same taps and weights. The result has
    /// `plan.new_len` values and the meta data of `self`.
    pub fn interpolate_with_plan<FT: Fn(T, T, usize, usize) -> T + Copy, FM: Fn(T, T, T) -> T + Copy>(
        self,
        plan: InterpolationPlan,
        rounded: &Vec<isize>,
        vectors: &Vec<Vec<T>>,
        zero: T,
        tap: FT,
        mac: FM,
    ) -> (r: Self)
        requires
            plan.path is ComplexScalar ==> self.is_complex,
            plan.path is RealScalar ==> !self.is_complex,
            self.is_complex ==> self.data@.len() % 2 == 0,
            plan.new_len % 2 == 0,
            plan.new_len > 0 ==> self.data@.len() > 0,
            2 * (2 * plan.conv_len + 1) <= usize::MAX,
            !(plan.path is Simd) ==> rounded@.len() == plan.new_len as int / spec_sample_step(self.is_complex),
            plan.path matches InterpolationPath::Simd { factor } ==> {
                &&& factor > 0
                &&& vectors@.len() == factor
                &&& forall|v: int|
                    0 <= v < factor ==> #[trigger] vectors@[v]@.len() >= spec_sample_step(
                        self.is_complex,
                    ) * (2 * plan.conv_len) + 1
                &&& 2 * ((2 * plan.conv_len + 1) * factor) <= plan.new_len as int / spec_sample_step(
                    self.is_complex,
                )
            },
            forall|acc: T, sample: T, i: usize, k: usize| call_requires(tap, (acc, sample, i, k)),
            forall|acc: T, sample: T, weight: T| call_requires(mac, (acc, sample, weight)),
        ensures
            r.data@.len() == plan.new_len,
            r.delta == self.delta,
            r.is_complex == self.is_complex,
            r.domain == self.domain,
            self.is_complex ==> forall|i: int|
                0 <= i < plan.new_len / 2 ==> is_interpolated_point(
                    plan,
                    spec_real_parts(self.data@),
                    rounded@,
                    vectors@,
                    true,
                    zero,
                    tap,
                    mac,
                    i,
                    #[trigger] r.data@[2 * i],
                ) && is_interpolated_point(
                    plan,
                    spec_imag_parts(self.data@),
                    rounded@,
                    vectors@,
                    true,
                    zero,
                    tap,
                    mac,
                    i,
                    r.data@[2 * i + 1],
                ),
            !self.is_complex ==> forall|i: int|
                0 <= i < plan.new_len ==> is_interpolated_point(
                    plan,
                    self.data@,
                    rounded@,
                    vectors@,
                    false,
                    zero,
                    tap,
                    mac,
                    i,
                    #[trigger] r.data@[i],
                ),
    {
        if self.is_complex {
            let data = interpolate_complex_points(
                &self.data,
                plan.new_len / 2,
                plan,
                rounded,
                vectors,
                zero,
                tap,
                mac,
            );
            DspVec { data, delta: self.delta, is_complex: true, domain: self.domain }
        } else {
            let data = interpolate_points(
                &self.data,
                plan.new_len,
                plan,
                rounded,
                vectors,
                false,
                zero,
                tap,
                mac,
            );
            DspVec { data, delta: self.delta, is_complex: false, domain: self.domain }
        }
    }
}

/// On the SIMD path, output sample `i` is weighted with the impulse response
/// for shift `i % factor`: with responses laid out from `sample` as
/// `impulse_responses` lays them out, its value is what `mac` makes, from
/// `zero` on, of the input samples at positions `i / factor - conv_len + 1`,
/// ..., `i / factor + conv_len + 1` (wrapping around the input), the `k`-th
/// of them weighted with `sample(i % factor, k)`.
pub proof fn lemma_simd_point_weights<T, FS: Fn(usize, usize) -> T, FT: Fn(T, T, usize, usize) -> T, FM: Fn(
    T,
    T,
    T,
) -> T>(
    plan: InterpolationPlan,
    points: Seq<T>,
    rounded: Seq<isize>,
    vectors: Seq<Vec<T>>,
    is_complex: bool,
    zero: T,
    tap: FT,
    mac: FM,
    sample: FS,
    i: int,
    value: T,
)
    requires
        plan.path is Simd,
        plan.path->factor > 0,
        i >= 0,
        points.len() > 0,
        vectors.len() == plan.path->factor,
        forall|shift: int, k: int|
            0 <= shift < plan.path->factor && 0 <= k < 2 * plan.conv_len + 1 ==> call_ensures(
                sample,
                (shift as usize, k as usize),
                #[trigger] vectors[shift]@[spec_sample_step(is_complex) * k],
            ),
        is_interpolated_point(plan, points, rounded, vectors, is_complex, zero, tap, mac, i, value),
    ensures
        ({
            let factor = plan.path->factor as int;
            let c = plan.conv_len as int;
            exists|partial: Seq<T>, weights: Seq<T>|
                {
                    &&& partial.len() == 2 * c + 2
                    &&& weights.len() == 2 * c + 1
                    &&& partial[0] == zero
                    &&& partial[2 * c + 1] == value
                    &&& forall|k: int|
                        0 <= k < 2 * c + 1 ==> call_ensures(
                            sample,
                            ((i % factor) as usize, k as usize),
                            #[trigger] weights[k],
                        )
                    &&& forall|k: int|
                        0 <= k < 2 * c + 1 ==> call_ensures(
                            mac,
                            (partial[k], points[(i / factor - c + k + 1) % points.len() as int], weights[k]),
                            #[trigger] partial[k + 1],
                        )
                }
        }),
{
    reveal(is_interpolated_point);
    let factor = plan.path->factor as int;
    let c = plan.conv_len as int;
    let step = spec_sample_step(is_complex);
    let positions = spec_wrapping_window(i / factor - c, (2 * c + 1) as nat, points.len() as int);
    let weights = spec_step_weights(vectors[i % factor]@, step, (2 * c + 1) as nat);
    let partial = choose|partial: Seq<T>|
        is_weighted_accumulation(mac, points, positions, weights, zero, partial) && partial.last()
            == value;
    assert(0 <= i % factor < factor) by {
        vstd::arithmetic::div_mod::lemma_mod_bound(i, factor);
    }
    assert forall|k: int| 0 <= k < 2 * c + 1 implies call_ensures(
        sample,
        ((i % factor) as usize, k as usize),
        #[trigger] weights[k],
    ) by {
        assert(weights[k] == vectors[i % factor]@[step * k]);
    }
    assert forall|k: int| 0 <= k < 2 * c + 1 implies call_ensures(
        mac,
        (partial[k], points[(i / factor - c + k + 1) % points.len() as int], weights[k]),
        #[trigger] partial[k + 1],
    ) by {
        assert(positions[k] == (i / factor - c + k + 1) % points.len() as int);
    }
    assert(partial[2 * c + 1] == value);
    assert({
        &&& partial.len() == 2 * c + 2
        &&& weights.len() == 2 * c + 1
        &&& partial[0] == zero
        &&& partial[2 * c + 1] == value
        &&& forall|k: int|
            0 <= k < 2 * c + 1 ==> call_ensures(
                sample,
                ((i % factor) as usize, k as usize),
                #[trigger] weights[k],
            )
        &&& forall|k: int|
            0 <= k < 2 * c + 1 ==> call_ensures(
                mac,
                (partial[k], points[(i / factor - c + k + 1) % points.len() as int], weights[k]),
                #[trigger] partial[k + 1],
            )
    });
}

/// On a scalar path, output sample `i` is what `tap` makes, from `zero` on,
/// of the input samples at positions `rounded[i] - conv_len`, ...,
/// `rounded[i] + conv_len` (wrapping around the input), handed `i` and the
/// index `k` of each of them.
pub proof fn lemma_scalar_point_taps<T, FT: Fn(T, T, usize, usize) -> T, FM: Fn(T, T, T) -> T>(
    plan: InterpolationPlan,
    points: Seq<T>,
    rounded: Seq<isize>,
    vectors: Seq<Vec<T>>,
    is_complex: bool,
    zero: T,
    tap: FT,
    mac: FM,
    i: int,
    value: T,
)
    requires
        !(plan.path is Simd),
        points.len() > 0,
        is_interpolated_point(plan, points, rounded, vectors, is_complex, zero, tap, mac, i, value),
    ensures
        ({
            let c = plan.conv_len as int;
            exists|partial: Seq<T>|
                {
                    &&& partial.len() == 2 * c + 2
                    &&& partial[0] == zero
                    &&& partial[2 * c + 1] == value
                    &&& forall|k: int|
                        0 <= k < 2 * c + 1 ==> call_ensures(
                            tap,
                            (partial[k], points[(rounded[i] - c + k) % points.len() as int], i as usize, k as usize),
                            #[trigger] partial[k + 1],
                        )
                }
        }),
{
    reveal(is_interpolated_point);
    let c = plan.conv_len as int;
    let positions = spec_wrapping_window(rounded[i] - c - 1, (2 * c + 1) as nat, points.len() as int);
    let partial = choose|partial: Seq<T>|
        is_tap_accumulation(tap, points, i as usize, positions, zero, partial) && partial.last()
            == value;
    assert forall|k: int| 0 <= k < 2 * c + 1 implies call_ensures(
        tap,
        (partial[k], points[(rounded[i] - c + k) % points.len() as int], i as usize, k as usize),
        #[trigger] partial[k + 1],
    ) by {
        assert(positions[k] == (rounded[i] - c + k) % points.len() as int);
    }
    assert(partial[2 * c + 1] == value);
}

/// `interpolatef` takes the SIMD path exactly when the convolution is at
/// most 202 samples long, the result at least 2000 values long and the
/// factor an integer, and then with that integer; otherwise it works sample
/// by sample, on complex or on real data as the vector holds.
pub proof fn lemma_interpolation_path(
    conv_len: int,
    new_len: int,
    is_complex: bool,
    integral_factor: Option<usize>,
)
    ensures
        (spec_interpolation_path(conv_len, new_len, is_complex, integral_factor) is Simd) <==> (
        conv_len <= 202 && new_len >= 2000 && integral_factor is Some),
        spec_interpolation_path(conv_len, new_len, is_complex, integral_factor) is Simd ==> Some(
            spec_interpolation_path(conv_len, new_len, is_complex, integral_factor)->factor,
        ) == integral_factor,
        !(spec_interpolation_path(conv_len, new_len, is_complex, integral_factor) is Simd) ==> (
        spec_interpolation_path(conv_len, new_len, is_complex, integral_factor) is ComplexScalar
            <==> is_complex),
        !(spec_interpolation_path(conv_len, new_len, is_complex, integral_factor) is Simd) ==> (
        spec_interpolation_path(conv_len, new_len, is_complex, integral_factor) is RealScalar
            <==> !is_complex),
{
}

/// The length `interpolatef` gives its result is even, and at most one more
/// than the rounded length.
pub proof fn lemma_even_len(n: int)
    requires
        n >= 0,
    ensures
        spec_even_len(n) % 2 == 0,
        n <= spec_even_len(n) <= n + 1,
{
}

/// The convolution length that `interpolatef` uses is never longer than the
/// one asked for, nor than half the number of points, so that its window of
/// `2 * conv_len + 1` samples reaches at most one sample past a full turn.
pub proof fn lemma_limited_conv_len(conv_len: int, points: int)
    requires
        conv_len >= 0,
        points >= 0,
    ensures
        0 <= spec_limited_conv_len(conv_len, points) <= conv_len,
        2 * spec_limited_conv_len(conv_len, points) <= points,
        spec_limited_conv_len(conv_len, points) == conv_len || spec_limited_conv_len(conv_len, points)
            == points / 2,
{
}

/// Asking for a convolution length of at least half the number of points
/// plans the same convolution length, and so the same path, as asking for
/// exactly half the number of points.
pub proof fn lemma_conv_len_saturates(conv_len: int, points: int)
    requires
        points >= 0,
        conv_len >= points / 2,
    ensures
        spec_limited_conv_len(conv_len, points) == spec_limited_conv_len(points / 2, points),
        spec_limited_conv_len(conv_len, points) == points / 2,
{
}

/// The complex layout of an impulse response has the samples as its real
/// parts and `zero` as all of its imaginary parts; the real layout is the
/// samples themselves.
pub proof fn lemma_impulse_layout_parts<T>(samples: Seq<T>, zero: T)
    ensures
        spec_real_parts(spec_impulse_layout(samples, zero, 2)) == samples,
        spec_imag_parts(spec_impulse_layout(samples, zero, 2)) == Seq::new(
            samples.len(),
            |j: int| zero,
        ),
        spec_impulse_layout(samples, zero, 1) == samples,
{
    let c = spec_impulse_layout(samples, zero, 2);
    assert forall|j: int| 0 <= j < samples.len() implies spec_real_parts(c)[j] == samples[j] by {
        assert((2 * j) % 2 == 0);
        assert((2 * j) / 2 == j);
    }
    assert forall|j: int| 0 <= j < samples.len() implies spec_imag_parts(c)[j] == zero by {
        assert((2 * j + 1) % 2 == 1);
    }
    assert(spec_real_parts(c) =~= samples);
    assert(spec_imag_parts(c) =~= Seq::new(samples.len(), |j: int| zero));
    let r = spec_impulse_layout(samples, zero, 1);
    assert forall|i: int| 0 <= i < samples.len() implies r[i] == samples[i] by {
        assert(i % 1 == 0);
        assert(i / 1 == i);
    }
    assert(r =~= samples);
}

} // verus!
