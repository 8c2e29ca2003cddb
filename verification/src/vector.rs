//! A data vector of real or interleaved complex samples, and the operations
//! on it that move samples between its complex and real forms.
//!
//! A complex vector stores its samples interleaved: the real part of the
//! `j`-th complex sample at index `2 * j`, its imaginary part at `2 * j + 1`.
use vstd::prelude::*;
use crate::layout::{sample_step, spec_sample_step};

verus! {

/// Whether a vector holds samples in time or in frequency.
#[derive(Clone, Copy, Debug, PartialEq, Eq, Structural)]
pub enum DataDomain {
    Time,
    Frequency,
}

/// Why an operation refused its arguments.
#[derive(Clone, Copy, Debug, PartialEq, Eq, Structural)]
pub enum ErrorReason {
    /// The operation is only defined for complex vectors.
    VectorMustBeComplex,
    /// The operation needs two vectors that agree in number space and domain.
    VectorMetaDataMustAgree,
    /// Two arguments that must have the same length do not.
    InvalidArgumentLength,
}

/// A vector of samples together with its meta data.
#[derive(Debug)]
pub struct DspVec<T> {
    /// The samples; a complex vector stores them interleaved.
    pub data: Vec<T>,
    /// The distance between two samples (in time or in frequency).
    pub delta: T,
    /// Whether `data` holds interleaved complex samples.
    pub is_complex: bool,
    /// Whether the samples lie in time or in frequency.
    pub domain: DataDomain,
}

/// The values at the even indices of `s`: the real parts of an interleaved
/// complex sequence.
pub open spec fn spec_real_parts<T>(s: Seq<T>) -> Seq<T> {
    Seq::new(s.len() / 2, |j: int| s[2 * j])
}

/// The values at the odd indices of `s`: the imaginary parts of an
/// interleaved complex sequence.
pub open spec fn spec_imag_parts<T>(s: Seq<T>) -> Seq<T> {
    Seq::new(s.len() / 2, |j: int| s[2 * j + 1])
}

/// The interleaved complex sequence whose real parts are `re` and whose
/// imaginary parts are `im`.
pub open spec fn spec_interleave<T>(re: Seq<T>, im: Seq<T>) -> Seq<T>
    recommends
        re.len() == im.len(),
{
    Seq::new(2 * re.len(), |i: int| if i % 2 == 0 { re[i / 2] } else { im[i / 2] })
}

/// The number of samples of a vector whose data holds `len` values: a complex
/// sample takes two values.
pub open spec fn spec_points(len: int, is_complex: bool) -> int {
    if is_complex {
        len / 2
    } else {
        len
    }
}

/// The values at positions `first`, `first + 2`, ... of `data`, as many as
/// fit in `data.len() / 2` results.
pub(crate) fn every_second<T: Copy>(data: &Vec<T>, first: usize) -> (r: Vec<T>)
    requires
        first < 2,
    ensures
        r@.len() == data@.len() / 2,
        forall|j: int| 0 <= j < r@.len() ==> #[trigger] r@[j] == data@[2 * j + first],
{
    let n = data.len();
    let half = n / 2;
    let mut r: Vec<T> = Vec::new();
    let mut j: usize = 0;
    while j < half
        invariant
            first < 2,
            n == data@.len(),
            half == data@.len() / 2,
            j <= half,
            r@.len() == j,
            forall|k: int| 0 <= k < j ==> #[trigger] r@[k] == data@[2 * k + first],
        decreases half - j,
    {
        assert(2 * j + first < data@.len()) by (nonlinear_arith)
            requires
                j < data@.len() / 2,
                first < 2,
        ;
        r.push(data[2 * j + first]);
        j = j + 1;
    }
    r
}

/// Interleaves `re` and `im`, which have the same length.
pub(crate) fn interleave<T: Copy>(re: &Vec<T>, im: &Vec<T>) -> (r: Vec<T>)
    requires
        re@.len() == im@.len(),
        2 * re@.len() <= usize::MAX,
    ensures
        r@ == spec_interleave(re@, im@),
{
    let n = re.len();
    let mut r: Vec<T> = Vec::new();
    let mut i: usize = 0;
    while i < 2 * n
        invariant
            n == re@.len(),
            n == im@.len(),
            2 * n <= usize::MAX,
            i <= 2 * n,
            r@.len() == i,
            forall|k: int| 0 <= k < i ==> #[trigger] r@[k] == spec_interleave(re@, im@)[k],
        decreases 2 * n - i,
    {
        if i % 2 == 0 {
            r.push(re[i / 2]);
        } else {
            r.push(im[i / 2]);
        }
        i = i + 1;
    }
    assert(r@ =~= spec_interleave(re@, im@));
    r
}

/// `f` applied to each pair `(data[2 * j], data[2 * j + 1])`, in order.
fn map_pairs_to_values<T: Copy, F: Fn(T, T) -> T>(data: &Vec<T>, f: F) -> (r: Vec<T>)
    requires
        forall|a: T, b: T| call_requires(f, (a, b)),
    ensures
        r@.len() == data@.len() / 2,
        forall|j: int|
            0 <= j < r@.len() ==> call_ensures(f, (data@[2 * j], data@[2 * j + 1]), #[trigger] r@[j]),
{
    let n = data.len();
    let half = n / 2;
    let mut r: Vec<T> = Vec::new();
    let mut j: usize = 0;
    while j < half
        invariant
            n == data@.len(),
            half == n / 2,
            j <= half,
            r@.len() == j,
            forall|a: T, b: T| call_requires(f, (a, b)),
            forall|k: int|
                0 <= k < j ==> call_ensures(f, (data@[2 * k], data@[2 * k + 1]), #[trigger] r@[k]),
        decreases half - j,
    {
        assert(2 * j + 1 < n) by (nonlinear_arith)
            requires
                j < n / 2,
        ;
        let value = f(data[2 * j], data[2 * j + 1]);
        r.push(value);
        j = j + 1;
    }
    r
}

/// `f` applied to each pair `(data[2 * j], data[2 * j + 1])`, its result
/// written back to the same two positions; a last value without a partner
/// stays as it is.
fn map_pairs<T: Copy, F: Fn(T, T) -> (T, T)>(data: &Vec<T>, f: F) -> (r: Vec<T>)
    requires
        forall|a: T, b: T| call_requires(f, (a, b)),
    ensures
        r@.len() == data@.len(),
        data@.len() % 2 == 1 ==> r@[data@.len() - 1] == data@[data@.len() - 1],
        forall|j: int|
            0 <= j < data@.len() / 2 ==> call_ensures(
                f,
                (data@[2 * j], data@[2 * j + 1]),
                (#[trigger] r@[2 * j], r@[2 * j + 1]),
            ),
{
    let n = data.len();
    let half = n / 2;
    let mut r: Vec<T> = Vec::new();
    let mut j: usize = 0;
    while j < half
        invariant
            n == data@.len(),
            half == n / 2,
            j <= half,
            r@.len() == 2 * j,
            forall|a: T, b: T| call_requires(f, (a, b)),
            forall|k: int|
                0 <= k < j ==> call_ensures(
                    f,
                    (data@[2 * k], data@[2 * k + 1]),
                    (#[trigger] r@[2 * k], r@[2 * k + 1]),
                ),
        decreases half - j,
    {
        assert(2 * j + 1 < n) by (nonlinear_arith)
            requires
                j < n / 2,
        ;
        let (x, y) = f(data[2 * j], data[2 * j + 1]);
        let ghost before = r@;
        r.push(x);
        r.push(y);
        proof {
            assert forall|k: int| 0 <= k <= j implies call_ensures(
                f,
                (data@[2 * k], data@[2 * k + 1]),
                (#[trigger] r@[2 * k], r@[2 * k + 1]),
            ) by {
                if k < j {
                    assert(r@[2 * k] == before[2 * k]);
                    assert(r@[2 * k + 1] == before[2 * k + 1]);
                }
            }
        }
        j = j + 1;
    }
    if n % 2 == 1 {
        let ghost before = r@;
        r.push(data[n - 1]);
        proof {
            assert forall|k: int| 0 <= k < half implies call_ensures(
                f,
                (data@[2 * k], data@[2 * k + 1]),
                (#[trigger] r@[2 * k], r@[2 * k + 1]),
            ) by {
                assert(r@[2 * k] == before[2 * k]);
                assert(r@[2 * k + 1] == before[2 * k + 1]);
            }
        }
    }
    r
}

/// `f` applied to each pair `(data[2 * j], data[2 * j + 1])`; the first
/// values of the results in one vector, the second ones in the other.
fn split_pairs<T: Copy, F: Fn(T, T) -> (T, T)>(data: &Vec<T>, f: F) -> (r: (Vec<T>, Vec<T>))
    requires
        data@.len() % 2 == 0,
        forall|a: T, b: T| call_requires(f, (a, b)),
    ensures
        r.0@.len() == data@.len() / 2,
        r.1@.len() == data@.len() / 2,
        forall|j: int|
            0 <= j < data@.len() / 2 ==> call_ensures(
                f,
                (data@[2 * j], data@[2 * j + 1]),
                (#[trigger] r.0@[j], r.1@[j]),
            ),
{
    let n = data.len();
    let half = n / 2;
    let mut first: Vec<T> = Vec::new();
    let mut second: Vec<T> = Vec::new();
    let mut j: usize = 0;
    while j < half
        invariant
            n == data@.len(),
            half == n / 2,
            j <= half,
            first@.len() == j,
            second@.len() == j,
            forall|a: T, b: T| call_requires(f, (a, b)),
            forall|k: int|
                0 <= k < j ==> call_ensures(
                    f,
                    (data@[2 * k], data@[2 * k + 1]),
                    (#[trigger] first@[k], second@[k]),
                ),
        decreases half - j,
    {
        assert(2 * j + 1 < n) by (nonlinear_arith)
            requires
                j < n / 2,
        ;
        let (x, y) = f(data[2 * j], data[2 * j + 1]);
        let ghost first_before = first@;
        let ghost second_before = second@;
        first.push(x);
        second.push(y);
        proof {
            assert forall|k: int| 0 <= k <= j implies call_ensures(
                f,
                (data@[2 * k], data@[2 * k + 1]),
                (#[trigger] first@[k], second@[k]),
            ) by {
                if k < j {
                    assert(first@[k] == first_before[k]);
                    assert(second@[k] == second_before[k]);
                }
            }
        }
        j = j + 1;
    }
    (first, second)
}

/// `f` applied to each pair `(a[j], b[j])`, its two results written to
/// positions `2 * j` and `2 * j + 1`.
fn join_pairs<T: Copy, F: Fn(T, T) -> (T, T)>(a: &Vec<T>, b: &Vec<T>, f: F) -> (r: Vec<T>)
    requires
        a@.len() == b@.len(),
        2 * a@.len() <= usize::MAX,
        forall|x: T, y: T| call_requires(f, (x, y)),
    ensures
        r@.len() == 2 * a@.len(),
        forall|j: int|
            0 <= j < a@.len() ==> call_ensures(f, (a@[j], b@[j]), (#[trigger] r@[2 * j], r@[2 * j + 1])),
{
    let n = a.len();
    let mut r: Vec<T> = Vec::new();
    let mut j: usize = 0;
    while j < n
        invariant
            n == a@.len(),
            n == b@.len(),
            2 * n <= usize::MAX,
            j <= n,
            r@.len() == 2 * j,
            forall|x: T, y: T| call_requires(f, (x, y)),
            forall|k: int|
                0 <= k < j ==> call_ensures(f, (a@[k], b@[k]), (#[trigger] r@[2 * k], r@[2 * k + 1])),
        decreases n - j,
    {
        let (x, y) = f(a[j], b[j]);
        let ghost before = r@;
        r.push(x);
        r.push(y);
        proof {
            assert forall|k: int| 0 <= k <= j implies call_ensures(
                f,
                (a@[k], b@[k]),
                (#[trigger] r@[2 * k], r@[2 * k + 1]),
            ) by {
                if k < j {
                    assert(r@[2 * k] == before[2 * k]);
                    assert(r@[2 * k + 1] == before[2 * k + 1]);
                }
            }
        }
        j = j + 1;
    }
    r
}

/// `partial` lists the running values of a sum over the complex samples of
/// `a` and `b`: it starts at `zero`, and each next value is what `mac` makes
/// of the previous one and the real and imaginary parts of the `j`-th complex
/// samples of `a` and of `b`.
pub open spec fn is_pair_accumulation<S, T, F: Fn(S, T, T, T, T) -> S>(
    mac: F,
    a: Seq<T>,
    b: Seq<T>,
    zero: S,
    partial: Seq<S>,
) -> bool {
    &&& partial.len() == a.len() / 2 + 1
    &&& partial[0] == zero
    &&& forall|j: int|
        0 <= j < a.len() / 2 ==> call_ensures(
            mac,
            (partial[j], a[2 * j], a[2 * j + 1], b[2 * j], b[2 * j + 1]),
            #[trigger] partial[j + 1],
        )
}

/// `value` is a sum that `mac` can make over the complex samples of `a` and
/// `b`, starting at `zero`.
pub open spec fn is_pair_sum<S, T, F: Fn(S, T, T, T, T) -> S>(
    mac: F,
    a: Seq<T>,
    b: Seq<T>,
    zero: S,
    value: S,
) -> bool {
    exists|partial: Seq<S>| is_pair_accumulation(mac, a, b, zero, partial) && partial.last() == value
}

impl<T: Copy> DspVec<T> {
    /// A vector over `data` with the given meta data.
    pub fn new(data: Vec<T>, delta: T, is_complex: bool, domain: DataDomain) -> (r: Self)
        ensures
            r.data@ == data@,
            r.delta == delta,
            r.is_complex == is_complex,
            r.domain == domain,
    {
        DspVec { data, delta, is_complex, domain }
    }

    /// The number of values in the data.
    pub fn len(&self) -> (r: usize)
        ensures
            r == self.data@.len(),
    {
        self.data.len()
    }

    /// Whether the vector holds complex samples.
    pub fn is_complex(&self) -> (r: bool)
        ensures
            r == self.is_complex,
    {
        self.is_complex
    }

    /// The number of samples: a complex sample takes two values.
    pub fn points(&self) -> (r: usize)
        ensures
            r == spec_points(self.data@.len() as int, self.is_complex),
    {
        if self.is_complex {
            self.data.len() / 2
        } else {
            self.data.len()
        }
    }

    /// Keeps the real parts of a complex vector, which becomes real. A real
    /// vector is handed back unchanged with `VectorMustBeComplex`.
    pub fn to_real(self) -> (r: Result<Self, (ErrorReason, Self)>)
        ensures
            self.is_complex ==> (r matches Ok(v) && v.data@ == spec_real_parts(self.data@)
                && !v.is_complex && v.delta == self.delta && v.domain == self.domain),
            !self.is_complex ==> (r matches Err((e, v)) && e == ErrorReason::VectorMustBeComplex
                && v == self),
    {
        if !self.is_complex {
            return Err((ErrorReason::VectorMustBeComplex, self));
        }
        let data = every_second(&self.data, 0);
        proof {
            assert(data@ =~= spec_real_parts(self.data@));
        }
        Ok(DspVec { data, delta: self.delta, is_complex: false, domain: self.domain })
    }

    /// Keeps the imaginary parts of a complex vector, which becomes real. A
    /// real vector is handed back unchanged with `VectorMustBeComplex`.
    pub fn to_imag(self) -> (r: Result<Self, (ErrorReason, Self)>)
        ensures
            self.is_complex ==> (r matches Ok(v) && v.data@ == spec_imag_parts(self.data@)
                && !v.is_complex && v.delta == self.delta && v.domain == self.domain),
            !self.is_complex ==> (r matches Err((e, v)) && e == ErrorReason::VectorMustBeComplex
                && v == self),
    {
        if !self.is_complex {
            return Err((ErrorReason::VectorMustBeComplex, self));
        }
        let data = every_second(&self.data, 1);
        proof {
            assert(data@ =~= spec_imag_parts(self.data@));
        }
        Ok(DspVec { data, delta: self.delta, is_complex: false, domain: self.domain })
    }

    /// Writes the real parts of a complex vector into `destination`, which
    /// becomes real and takes the delta of `self`. For a real `self` it fails
    /// with `VectorMustBeComplex` and leaves `destination` as it was.
    pub fn get_real(&self, destination: &mut Self) -> (r: Result<(), ErrorReason>)
        ensures
            self.is_complex ==> r is Ok && final(destination).data@ == spec_real_parts(self.data@)
                && !final(destination).is_complex && final(destination).delta == self.delta
                && final(destination).domain == old(destination).domain,
            !self.is_complex ==> r == Err::<(), ErrorReason>(ErrorReason::VectorMustBeComplex)
                && *final(destination) == *old(destination),
    {
        if !self.is_complex {
            return Err(ErrorReason::VectorMustBeComplex);
        }
        let data = every_second(&self.data, 0);
        proof {
            assert(data@ =~= spec_real_parts(self.data@));
        }
        destination.data = data;
        destination.delta = self.delta;
        destination.is_complex = false;
        Ok(())
    }

    /// Writes the imaginary parts of a complex vector into `destination`,
    /// which becomes real and takes the delta of `self`. For a real `self` it
    /// fails with `VectorMustBeComplex` and leaves `destination` as it was.
    pub fn get_imag(&self, destination: &mut Self) -> (r: Result<(), ErrorReason>)
        ensures
            self.is_complex ==> r is Ok && final(destination).data@ == spec_imag_parts(self.data@)
                && !final(destination).is_complex && final(destination).delta == self.delta
                && final(destination).domain == old(destination).domain,
            !self.is_complex ==> r == Err::<(), ErrorReason>(ErrorReason::VectorMustBeComplex)
                && *final(destination) == *old(destination),
    {
        if !self.is_complex {
            return Err(ErrorReason::VectorMustBeComplex);
        }
        let data = every_second(&self.data, 1);
        proof {
            assert(data@ =~= spec_imag_parts(self.data@));
        }
        destination.data = data;
        destination.delta = self.delta;
        destination.is_complex = false;
        Ok(())
    }

    /// Turns a complex vector into a real one whose `j`-th value is `f` of the
    /// real and the imaginary part of the `j`-th complex sample: the shared
    /// logic of the magnitude, squared magnitude and phase of a vector. A real
    /// vector is handed back unchanged with `VectorMustBeComplex`.
    pub fn map_complex_to_real<F: Fn(T, T) -> T>(self, f: F) -> (r: Result<Self, (ErrorReason, Self)>)
        requires
            forall|a: T, b: T| call_requires(f, (a, b)),
        ensures
            self.is_complex ==> (r matches Ok(v) && v.data@.len() == self.data@.len() / 2 && (forall|
                j: int,
            |
                0 <= j < v.data@.len() ==> call_ensures(
                    f,
                    (self.data@[2 * j], self.data@[2 * j + 1]),
                    #[trigger] v.data@[j],
                )) && !v.is_complex && v.delta == self.delta && v.domain == self.domain),
            !self.is_complex ==> (r matches Err((e, v)) && e == ErrorReason::VectorMustBeComplex
                && v == self),
    {
        if !self.is_complex {
            return Err((ErrorReason::VectorMustBeComplex, self));
        }
        let data = map_pairs_to_values(&self.data, f);
        Ok(DspVec { data, delta: self.delta, is_complex: false, domain: self.domain })
    }

    /// Writes into `destination` the real vector whose `j`-th value is `f` of
    /// the real and the imaginary part of the `j`-th complex sample of `self`;
    /// `destination` takes the delta of `self`. For a real `self` it fails with
    /// `VectorMustBeComplex` and leaves `destination` as it was.
    pub fn get_mapped_complex<F: Fn(T, T) -> T>(&self, destination: &mut Self, f: F) -> (r: Result<
        (),
        ErrorReason,
    >)
        requires
            forall|a: T, b: T| call_requires(f, (a, b)),
        ensures
            self.is_complex ==> r is Ok && final(destination).data@.len() == self.data@.len() / 2
                && (forall|j: int|
                0 <= j < final(destination).data@.len() ==> call_ensures(
                    f,
                    (self.data@[2 * j], self.data@[2 * j + 1]),
                    #[trigger] final(destination).data@[j],
                )) && !final(destination).is_complex && final(destination).delta == self.delta
                && final(destination).domain == old(destination).domain,
            !self.is_complex ==> r == Err::<(), ErrorReason>(ErrorReason::VectorMustBeComplex)
                && *final(destination) == *old(destination),
    {
        if !self.is_complex {
            return Err(ErrorReason::VectorMustBeComplex);
        }
        let data = map_pairs_to_values(&self.data, f);
        destination.data = data;
        destination.delta = self.delta;
        destination.is_complex = false;
        Ok(())
    }

    /// Replaces each complex sample `(re, im)` by `f(re, im)`: the shared
    /// logic of adding a complex offset to, scaling and conjugating a complex
    /// vector. A last value without a partner stays as it is. A real vector
    /// is handed back unchanged with `VectorMustBeComplex`.
    pub fn map_complex<F: Fn(T, T) -> (T, T)>(self, f: F) -> (r: Result<Self, (ErrorReason, Self)>)
        requires
            forall|a: T, b: T| call_requires(f, (a, b)),
        ensures
            self.is_complex ==> (r matches Ok(v) && v.data@.len() == self.data@.len() && (forall|
                j: int,
            |
                0 <= j < self.data@.len() / 2 ==> call_ensures(
                    f,
                    (self.data@[2 * j], self.data@[2 * j + 1]),
                    (#[trigger] v.data@[2 * j], v.data@[2 * j + 1]),
                )) && (self.data@.len() % 2 == 1 ==> v.data@[self.data@.len() - 1]
                == self.data@[self.data@.len() - 1]) && v.is_complex && v.delta == self.delta
                && v.domain == self.domain),
            !self.is_complex ==> (r matches Err((e, v)) && e == ErrorReason::VectorMustBeComplex
                && v == self),
    {
        if !self.is_complex {
            return Err((ErrorReason::VectorMustBeComplex, self));
        }
        let data = map_pairs(&self.data, f);
        Ok(DspVec { data, delta: self.delta, is_complex: true, domain: self.domain })
    }

    /// The dot product of two complex vectors, summed from `zero` with `mac`:
    /// `mac(acc, re_a, im_a, re_b, im_b)` adds the product of the `j`-th
    /// complex samples of `self` and `factor` to `acc`. `self` must be
    /// complex (else `VectorMustBeComplex`), and `factor` complex and in the
    /// same domain (else `VectorMetaDataMustAgree`).
    pub fn complex_dot_product<S: Copy, F: Fn(S, T, T, T, T) -> S>(
        &self,
        factor: &Self,
        zero: S,
        mac: F,
    ) -> (r: Result<S, ErrorReason>)
        requires
            self.is_complex && factor.is_complex && self.domain == factor.domain ==> self.data@.len()
                % 2 == 0 && factor.data@.len() >= self.data@.len(),
            forall|acc: S, a: T, b: T, c: T, d: T| call_requires(mac, (acc, a, b, c, d)),
        ensures
            !self.is_complex ==> r == Err::<S, ErrorReason>(ErrorReason::VectorMustBeComplex),
            self.is_complex && (!factor.is_complex || self.domain != factor.domain) ==> r
                == Err::<S, ErrorReason>(ErrorReason::VectorMetaDataMustAgree),
            r is Ok <==> (self.is_complex && factor.is_complex && self.domain == factor.domain),
            r matches Ok(v) ==> is_pair_sum(mac, self.data@, factor.data@, zero, v),
    {
        if !self.is_complex {
            return Err(ErrorReason::VectorMustBeComplex);
        }
        if !factor.is_complex || self.domain != factor.domain {
            return Err(ErrorReason::VectorMetaDataMustAgree);
        }
        let n = self.data.len();
        let half = n / 2;
        let mut acc = zero;
        let ghost mut partial: Seq<S> = seq![zero];
        let mut j: usize = 0;
        while j < half
            invariant
                n == self.data@.len(),
                n % 2 == 0,
                factor.data@.len() >= n,
                half == n / 2,
                j <= half,
                forall|acc: S, a: T, b: T, c: T, d: T| call_requires(mac, (acc, a, b, c, d)),
                partial.len() == j + 1,
                partial[0] == zero,
                partial.last() == acc,
                forall|k: int|
                    0 <= k < j ==> call_ensures(
                        mac,
                        (
                            partial[k],
                            self.data@[2 * k],
                            self.data@[2 * k + 1],
                            factor.data@[2 * k],
                            factor.data@[2 * k + 1],
                        ),
                        #[trigger] partial[k + 1],
                    ),
            decreases half - j,
        {
            assert(2 * j + 1 < n) by (nonlinear_arith)
                requires
                    j < n / 2,
            ;
            let next = mac(
                acc,
                self.data[2 * j],
                self.data[2 * j + 1],
                factor.data[2 * j],
                factor.data[2 * j + 1],
            );
            proof {
                let before = partial;
                partial = partial.push(next);
                assert forall|k: int| 0 <= k < j + 1 implies call_ensures(
                    mac,
                    (
                        partial[k],
                        self.data@[2 * k],
                        self.data@[2 * k + 1],
                        factor.data@[2 * k],
                        factor.data@[2 * k + 1],
                    ),
                    #[trigger] partial[k + 1],
                ) by {
                    if k < j {
                        assert(partial[k] == before[k]);
                        assert(partial[k + 1] == before[k + 1]);
                    }
                }
            }
            acc = next;
            j = j + 1;
        }
        assert(is_pair_accumulation(mac, self.data@, factor.data@, zero, partial));
        Ok(acc)
    }

    /// Writes the magnitude and the phase of each complex sample of `self`,
    /// as `to_polar` computes them from its real and imaginary part, to `mag`
    /// and `phase`; the meta data of both stay as they were.
    pub fn get_mag_phase<F: Fn(T, T) -> (T, T)>(&self, mag: &mut Self, phase: &mut Self, to_polar: F) -> (r:
        Result<(), ErrorReason>)
        requires
            self.data@.len() % 2 == 0,
            forall|a: T, b: T| call_requires(to_polar, (a, b)),
        ensures
            r is Ok,
            final(mag).data@.len() == self.data@.len() / 2,
            final(phase).data@.len() == self.data@.len() / 2,
            forall|j: int|
                0 <= j < self.data@.len() / 2 ==> call_ensures(
                    to_polar,
                    (self.data@[2 * j], self.data@[2 * j + 1]),
                    (#[trigger] final(mag).data@[j], final(phase).data@[j]),
                ),
            final(mag).delta == old(mag).delta,
            final(mag).is_complex == old(mag).is_complex,
            final(mag).domain == old(mag).domain,
            final(phase).delta == old(phase).delta,
            final(phase).is_complex == old(phase).is_complex,
            final(phase).domain == old(phase).domain,
    {
        let (m, p) = split_pairs(&self.data, to_polar);
        mag.data = m;
        phase.data = p;
        Ok(())
    }

    /// Replaces the data of `self` by the complex samples that `from_polar`
    /// makes of the magnitudes in `mag` and the phases in `phase`, as real and
    /// imaginary part. Where the lengths of `mag` and `phase` differ it fails
    /// with `InvalidArgumentLength` and hands `self` back unchanged. The meta
    /// data of `self` stay as they were.
    pub fn set_mag_phase<F: Fn(T, T) -> (T, T)>(self, mag: &Self, phase: &Self, from_polar: F) -> (r:
        Result<Self, (ErrorReason, Self)>)
        requires
            2 * mag.data@.len() <= usize::MAX,
            forall|a: T, b: T| call_requires(from_polar, (a, b)),
        ensures
            mag.data@.len() == phase.data@.len() ==> (r matches Ok(v) && v.data@.len() == 2
                * mag.data@.len() && (forall|j: int|
                0 <= j < mag.data@.len() ==> call_ensures(
                    from_polar,
                    (mag.data@[j], phase.data@[j]),
                    (#[trigger] v.data@[2 * j], v.data@[2 * j + 1]),
                )) && v.delta == self.delta && v.is_complex == self.is_complex && v.domain
                == self.domain),
            mag.data@.len() != phase.data@.len() ==> (r matches Err((e, v)) && e
                == ErrorReason::InvalidArgumentLength && v == self),
    {
        if mag.data.len() != phase.data.len() {
            return Err((ErrorReason::InvalidArgumentLength, self));
        }
        let data = join_pairs(&mag.data, &phase.data, from_polar);
        Ok(DspVec { data, delta: self.delta, is_complex: self.is_complex, domain: self.domain })
    }

    /// Downsamples `self`: keeps the samples at positions `delay`,
    /// `delay + decimation_factor`, `delay + 2 * decimation_factor`, ... and
    /// drops the others; a complex sample keeps both of its values. The meta
    /// data stay as they were.
    pub fn decimatei(&mut self, decimation_factor: u32, delay: u32)
        requires
            decimation_factor > 0,
        ensures
            ({
                let step = spec_sample_step(old(self).is_complex);
                let points = spec_points(old(self).data@.len() as int, old(self).is_complex);
                let kept = final(self).data@.len() as int / step;
                &&& final(self).data@.len() == step * kept
                &&& kept > 0 ==> delay + (kept - 1) * decimation_factor < points
                &&& delay + kept * decimation_factor >= points
                &&& forall|k: int, c: int|
                    0 <= k < kept && 0 <= c < step ==> #[trigger] final(self).data@[step * k + c]
                        == old(self).data@[step * (delay + k * decimation_factor) + c]
            }),
            final(self).delta == old(self).delta,
            final(self).is_complex == old(self).is_complex,
            final(self).domain == old(self).domain,
    {
        let step = sample_step(self.is_complex);
        let points = self.points();
        let n = self.data.len();
        let f = decimation_factor as u128;
        let mut p: u128 = delay as u128;
        let ghost mut kept: int = 0;
        let mut r: Vec<T> = Vec::new();
        while p < points as u128
            invariant
                step == spec_sample_step(self.is_complex),
                points == spec_points(n as int, self.is_complex),
                n == self.data@.len(),
                f == decimation_factor,
                f > 0,
                kept >= 0,
                p == delay + kept * f,
                p <= usize::MAX + f,
                r@.len() == step * kept,
                kept > 0 ==> delay + (kept - 1) * decimation_factor < points,
                forall|k: int, c: int|
                    0 <= k < kept && 0 <= c < step ==> #[trigger] r@[step * k + c] == self.data@[step
                        * (delay + k * decimation_factor) + c],
            decreases points + f - p,
        {
            let q = p as usize;
            assert(step * q + step <= n) by (nonlinear_arith)
                requires
                    q < points,
                    points == spec_points(n as int, step == 2),
                    step == 1 || step == 2,
            ;
            let ghost before = r@;
            let mut c: usize = 0;
            while c < step
                invariant
                    step == 1 || step == 2,
                    step * q + step <= n,
                    n == self.data@.len(),
                    c <= step,
                    r@.len() == step * kept + c,
                    forall|m: int| 0 <= m < step * kept ==> #[trigger] r@[m] == before[m],
                    before.len() == step * kept,
                    forall|e: int| 0 <= e < c ==> #[trigger] r@[step * kept + e] == self.data@[step * q + e],
                decreases step - c,
            {
                r.push(self.data[step * q + c]);
                c = c + 1;
            }
            proof {
                assert forall|k: int, c: int|
                    0 <= k < kept + 1 && 0 <= c < step implies #[trigger] r@[step * k + c]
                        == self.data@[step * (delay + k * decimation_factor) + c] by {
                    if k < kept {
                        assert(step * k + c < step * kept) by (nonlinear_arith)
                            requires
                                k < kept,
                                0 <= c < step,
                        ;
                        assert(r@[step * k + c] == before[step * k + c]);
                    } else {
                        assert(k == kept);
                        assert(r@[step * kept + c] == self.data@[step * q + c]);
                    }
                }
                assert(r@.len() == step * (kept + 1)) by (nonlinear_arith)
                    requires
                        r@.len() == step * kept + step,
                ;
                kept = kept + 1;
                assert(p + f == delay + kept * f) by (nonlinear_arith)
                    requires
                        p == delay + (kept - 1) * f,
                ;
            }
            p = p + f;
        }
        proof {
            assert(r@.len() as int / step as int == kept) by (nonlinear_arith)
                requires
                    r@.len() == step * kept,
                    step == 1 || step == 2,
                    kept >= 0,
            ;
        }
        self.data = r;
    }

    /// Splits the interleaved data of `self` into its real parts, written to
    /// `real_part`, and its imaginary parts, written to `imag_part`; the meta
    /// data of both stay as they were.
    pub fn get_real_imag(&self, real_part: &mut Self, imag_part: &mut Self) -> (r: Result<(), ErrorReason>)
        requires
            self.data@.len() % 2 == 0,
        ensures
            r is Ok,
            final(real_part).data@ == spec_real_parts(self.data@),
            final(imag_part).data@ == spec_imag_parts(self.data@),
            final(real_part).delta == old(real_part).delta,
            final(real_part).is_complex == old(real_part).is_complex,
            final(real_part).domain == old(real_part).domain,
            final(imag_part).delta == old(imag_part).delta,
            final(imag_part).is_complex == old(imag_part).is_complex,
            final(imag_part).domain == old(imag_part).domain,
    {
        let re = every_second(&self.data, 0);
        let im = every_second(&self.data, 1);
        proof {
            assert(re@ =~= spec_real_parts(self.data@));
            assert(im@ =~= spec_imag_parts(self.data@));
        }
        real_part.data = re;
        imag_part.data = im;
        Ok(())
    }

    /// Replaces the data of `self` by the interleaving of the data of
    /// `real_part` and `imag_part`. Where their lengths differ it fails with
    /// `InvalidArgumentLength` and hands `self` back unchanged. The meta data
    /// of `self` stay as they were.
    pub fn set_real_imag(self, real_part: &Self, imag_part: &Self) -> (r: Result<Self, (ErrorReason, Self)>)
        requires
            2 * real_part.data@.len() <= usize::MAX,
        ensures
            real_part.data@.len() == imag_part.data@.len() ==> (r matches Ok(v) && v.data@
                == spec_interleave(real_part.data@, imag_part.data@) && v.delta == self.delta
                && v.is_complex == self.is_complex && v.domain == self.domain),
            real_part.data@.len() != imag_part.data@.len() ==> (r matches Err((e, v)) && e
                == ErrorReason::InvalidArgumentLength && v == self),
    {
        if real_part.data.len() != imag_part.data.len() {
            return Err((ErrorReason::InvalidArgumentLength, self));
        }
        let data = interleave(&real_part.data, &imag_part.data);
        Ok(DspVec { data, delta: self.delta, is_complex: self.is_complex, domain: self.domain })
    }
}

/// A complex dot product is a running sum over the complex samples in order:
/// from `zero` on, the `j`-th step hands `mac` the real and imaginary part of
/// the `j`-th complex sample of `a` and then of `b`, and its last value is
/// the result.
pub proof fn lemma_pair_sum_terms<S, T, F: Fn(S, T, T, T, T) -> S>(
    mac: F,
    a: Seq<T>,
    b: Seq<T>,
    zero: S,
    value: S,
)
    requires
        is_pair_sum(mac, a, b, zero, value),
    ensures
        exists|partial: Seq<S>|
            {
                &&& partial.len() == a.len() / 2 + 1
                &&& partial[0] == zero
                &&& partial[a.len() as int / 2] == value
                &&& forall|j: int|
                    0 <= j < a.len() / 2 ==> call_ensures(
                        mac,
                        (partial[j], a[2 * j], a[2 * j + 1], b[2 * j], b[2 * j + 1]),
                        #[trigger] partial[j + 1],
                    )
            },
{
    let partial = choose|partial: Seq<S>|
        is_pair_accumulation(mac, a, b, zero, partial) && partial.last() == value;
    assert(partial[a.len() as int / 2] == value);
    assert({
        &&& partial.len() == a.len() / 2 + 1
        &&& partial[0] == zero
        &&& partial[a.len() as int / 2] == value
        &&& forall|j: int|
            0 <= j < a.len() / 2 ==> call_ensures(
                mac,
                (partial[j], a[2 * j], a[2 * j + 1], b[2 * j], b[2 * j + 1]),
                #[trigger] partial[j + 1],
            )
    });
}

/// In an interleaved sequence of even length the `j`-th real part is the
/// value at index `2 * j` and the `j`-th imaginary part the one at
/// `2 * j + 1`; interleaving puts them back there.
pub proof fn lemma_interleaved_layout<T>(s: Seq<T>, re: Seq<T>, im: Seq<T>, j: int)
    requires
        s.len() % 2 == 0,
        re.len() == im.len(),
    ensures
        0 <= j < s.len() / 2 ==> spec_real_parts(s)[j] == s[2 * j] && spec_imag_parts(s)[j] == s[2 * j
            + 1],
        spec_real_parts(s).len() == s.len() / 2,
        spec_imag_parts(s).len() == s.len() / 2,
        spec_interleave(re, im).len() == 2 * re.len(),
        0 <= j < re.len() ==> spec_interleave(re, im)[2 * j] == re[j] && spec_interleave(re, im)[2 * j
            + 1] == im[j],
{
    assert((2 * j) % 2 == 0 && (2 * j) / 2 == j);
    assert((2 * j + 1) % 2 == 1 && (2 * j + 1) / 2 == j);
}

/// Splitting an interleaved sequence of even length into real and imaginary
/// parts and interleaving them again gives the sequence back.
pub proof fn lemma_split_then_interleave<T>(s: Seq<T>)
    requires
        s.len() % 2 == 0,
    ensures
        spec_interleave(spec_real_parts(s), spec_imag_parts(s)) == s,
{
    let t = spec_interleave(spec_real_parts(s), spec_imag_parts(s));
    assert forall|i: int| 0 <= i < s.len() implies t[i] == s[i] by {
        if i % 2 == 0 {
            assert(2 * (i / 2) == i);
        } else {
            assert(2 * (i / 2) + 1 == i);
        }
    }
    assert(t =~= s);
}

/// Interleaving two sequences of one length and splitting the result gives
/// back the real and the imaginary parts.
pub proof fn lemma_interleave_then_split<T>(re: Seq<T>, im: Seq<T>)
    requires
        re.len() == im.len(),
    ensures
        spec_real_parts(spec_interleave(re, im)) == re,
        spec_imag_parts(spec_interleave(re, im)) == im,
{
    let t = spec_interleave(re, im);
    assert forall|j: int| 0 <= j < re.len() implies spec_real_parts(t)[j] == re[j] by {
        assert((2 * j) % 2 == 0);
        assert((2 * j) / 2 == j);
    }
    assert forall|j: int| 0 <= j < im.len() implies spec_imag_parts(t)[j] == im[j] by {
        assert((2 * j + 1) % 2 == 1);
        assert((2 * j + 1) / 2 == j);
    }
    assert(spec_real_parts(t) =~= re);
    assert(spec_imag_parts(t) =~= im);
}

} // verus!
