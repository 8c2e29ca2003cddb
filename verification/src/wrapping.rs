//! Index arithmetic of a wrapping walk over a circular buffer.
//!
//! A wrapping iterator placed at position `pos` of a buffer of `len` values
//! steps forward before it reads: the `k`-th value it yields (counting from 0)
//! is the one at position `pos + 1 + k`, taken modulo `len`. Positions before
//! the start of the buffer (negative ones) wrap around to its end.
use vstd::prelude::*;
use vstd::arithmetic::div_mod::{lemma_fundamental_div_mod, lemma_fundamental_div_mod_converse};

verus! {

/// The position that a walk reaches `steps` steps after `pos` in a circular
/// buffer of `len` values.
pub open spec fn wrap_position(pos: int, steps: int, len: int) -> int {
    (pos + steps) % len
}

/// The positions that a wrapping iterator placed at `pos` yields in its first
/// `count` steps, over a buffer of `len` values.
pub open spec fn spec_wrapping_window(pos: int, count: nat, len: int) -> Seq<int> {
    Seq::new(count, |k: int| wrap_position(pos, k + 1, len))
}

/// One step forward on the circle: `(x + 1) % n` from `x % n`.
proof fn lemma_mod_step(x: int, n: int)
    requires
        n > 0,
    ensures
        (x + 1) % n == (if x % n + 1 == n { 0 } else { x % n + 1 }),
{
    lemma_fundamental_div_mod(x, n);
    let q = x / n;
    let r = x % n;
    assert(x == q * n + r) by (nonlinear_arith)
        requires
            x == n * q + r,
    ;
    if r + 1 == n {
        assert(x + 1 == (q + 1) * n + 0) by (nonlinear_arith)
            requires
                x == q * n + r,
                r + 1 == n,
        ;
        lemma_fundamental_div_mod_converse(x + 1, n, q + 1, 0);
    } else {
        lemma_fundamental_div_mod_converse(x + 1, n, q, r + 1);
    }
}

/// The remainder of a negative number: `p % n` from `(-p) % n`.
proof fn lemma_mod_of_negative(p: int, n: int)
    requires
        n > 0,
        p < 0,
    ensures
        p % n == (if (-p) % n == 0 { 0 } else { n - (-p) % n }),
{
    let x = -p;
    lemma_fundamental_div_mod(x, n);
    let q = x / n;
    let a = x % n;
    assert(x == q * n + a) by (nonlinear_arith)
        requires
            x == n * q + a,
    ;
    if a == 0 {
        assert(p == (-q) * n + 0) by (nonlinear_arith)
            requires
                x == q * n + a,
                a == 0,
                p == -x,
        ;
        lemma_fundamental_div_mod_converse(p, n, -q, 0);
    } else {
        assert(p == (-q - 1) * n + (n - a)) by (nonlinear_arith)
            requires
                x == q * n + a,
                p == -x,
        ;
        lemma_fundamental_div_mod_converse(p, n, -q - 1, n - a);
    }
}

/// The first position that a wrapping iterator placed at `pos` yields:
/// `pos + 1` taken modulo `len`.
pub fn first_wrapped_position(pos: i128, len: usize) -> (r: usize)
    requires
        len > 0,
        pos < i128::MAX,
    ensures
        r < len,
        r as int == wrap_position(pos as int, 1, len as int),
{
    let p: i128 = pos + 1;
    let n: u128 = len as u128;
    if p >= 0 {
        let m: u128 = (p as u128) % n;
        m as usize
    } else {
        let a: u128 = ((-p) as u128) % n;
        proof {
            lemma_mod_of_negative(p as int, n as int);
        }
        if a == 0 {
            0
        } else {
            (n - a) as usize
        }
    }
}

/// The positions, in order, that a wrapping iterator placed at `pos` over a
/// buffer of `len` values yields in its first `count` steps.
pub fn wrapping_window(pos: i128, count: usize, len: usize) -> (r: Vec<usize>)
    requires
        len > 0,
        pos < i128::MAX,
    ensures
        r@.len() == count,
        forall|k: int|
            0 <= k < count ==> #[trigger] r@[k] as int == spec_wrapping_window(
                pos as int,
                count as nat,
                len as int,
            )[k],
{
    let mut r: Vec<usize> = Vec::new();
    let mut idx: usize = first_wrapped_position(pos, len);
    let mut k: usize = 0;
    while k < count
        invariant
            len > 0,
            k <= count,
            r@.len() == k,
            idx < len,
            idx as int == wrap_position(pos as int, k + 1, len as int),
            forall|j: int| 0 <= j < k ==> #[trigger] r@[j] as int == wrap_position(pos as int, j + 1, len as int),
        decreases count - k,
    {
        r.push(idx);
        proof {
            lemma_mod_step(pos + k + 1, len as int);
        }
        idx = if idx + 1 == len {
            0
        } else {
            idx + 1
        };
        k = k + 1;
    }
    r
}

/// Every position of a wrapping window lies inside the buffer, the first one
/// is the one after `pos`, and each next one follows the one before it on
/// the circle.
pub proof fn lemma_wrapping_window_in_bounds(pos: int, count: nat, len: int)
    requires
        len > 0,
    ensures
        count > 0 ==> spec_wrapping_window(pos, count, len)[0] == (pos + 1) % len,
        forall|k: int| 0 <= k < count ==> 0 <= #[trigger] spec_wrapping_window(pos, count, len)[k] < len,
        forall|k: int|
            0 <= k < count - 1 ==> #[trigger] spec_wrapping_window(pos, count, len)[k + 1] == (
            spec_wrapping_window(pos, count, len)[k] + 1) % len,
{
    assert forall|k: int| 0 <= k < count - 1 implies #[trigger] spec_wrapping_window(pos, count, len)[k + 1]
        == (spec_wrapping_window(pos, count, len)[k] + 1) % len by {
        lemma_mod_step(pos + k + 1, len);
        let r = (pos + k + 1) % len;
        if r + 1 < len {
            lemma_fundamental_div_mod_converse(r + 1, len, 0, r + 1);
        } else {
            lemma_fundamental_div_mod_converse(r + 1, len, 1, 0);
        }
    }
}

/// Moving the iterator's start by a whole turn of the buffer does not change
/// the positions it yields.
pub proof fn lemma_wrapping_window_periodic(pos: int, count: nat, len: int)
    requires
        len > 0,
    ensures
        spec_wrapping_window(pos + len, count, len) == spec_wrapping_window(pos, count, len),
{
    assert forall|k: int| 0 <= k < count implies spec_wrapping_window(pos + len, count, len)[k]
        == spec_wrapping_window(pos, count, len)[k] by {
        let x = pos + k + 1;
        lemma_fundamental_div_mod(x, len);
        let q = x / len;
        let r = x % len;
        assert(x + len == (q + 1) * len + r) by (nonlinear_arith)
            requires
                x == len * q + r,
        ;
        lemma_fundamental_div_mod_converse(x + len, len, q + 1, r);
    }
    assert(spec_wrapping_window(pos + len, count, len) =~= spec_wrapping_window(pos, count, len));
}

} // verus!
