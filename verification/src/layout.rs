//! How samples sit in memory: the number of values per sample, and the split
//! of a buffer into a part that whole SIMD registers cover and a scalar rest.
use vstd::prelude::*;

verus! {

/// The number of values one sample occupies: two for an interleaved complex
/// sample, one for a real one.
pub open spec fn spec_sample_step(is_complex: bool) -> int {
    if is_complex {
        2
    } else {
        1
    }
}

/// The number of values one sample occupies: two for an interleaved complex
/// sample, one for a real one.
pub fn sample_step(is_complex: bool) -> (step: usize)
    ensures
        step == spec_sample_step(is_complex),
{
    if is_complex {
        2
    } else {
        1
    }
}

/// Splits `data_length` values into a leading part made of whole registers
/// of `reg_len` values and the scalar rest; returns
/// `(scalar_length, vectorization_length)`.
pub fn vectorization_split(data_length: usize, reg_len: usize) -> (r: (usize, usize))
    requires
        reg_len > 0,
    ensures
        r.0 == data_length % reg_len,
        r.1 == data_length - data_length % reg_len,
        r.0 + r.1 == data_length,
        r.0 < reg_len,
        r.1 % reg_len == 0,
{
    let scalar_length = data_length % reg_len;
    proof {
        vstd::arithmetic::div_mod::lemma_mod_decreases(data_length as nat, reg_len as nat);
    }
    let vectorization_length = data_length - scalar_length;
    proof {
        let n = data_length as int;
        let d = reg_len as int;
        vstd::arithmetic::div_mod::lemma_fundamental_div_mod(n, d);
        let q = n / d;
        let v = vectorization_length as int;
        assert(v == q * d) by (nonlinear_arith)
            requires
                n == d * q + n % d,
                v == n - n % d,
        ;
        vstd::arithmetic::div_mod::lemma_mod_multiples_basic(q, d);
    }
    (scalar_length, vectorization_length)
}

} // verus!
