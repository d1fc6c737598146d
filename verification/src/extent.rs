//! The number of elements of an array, from its extents.

use vstd::prelude::*;
use crate::model::product;

verus! {

/// The product of the first `i` extents.
pub open spec fn partial_product(dims: Seq<i32>, i: int) -> int {
    product(dims.take(i))
}

/// The product of one more extent is the product so far times that extent.
proof fn lemma_partial_product_step(dims: Seq<i32>, i: int)
    requires
        0 <= i < dims.len(),
    ensures
        partial_product(dims, i + 1) == partial_product(dims, i) * (dims[i] as int),
{
    assert(dims.take(i + 1).drop_last() =~= dims.take(i));
    assert(dims.take(i + 1).last() == dims[i]);
}

/// A product with an extent of zero is zero.
pub proof fn lemma_product_zero(dims: Seq<i32>, k: int)
    requires
        0 <= k < dims.len(),
        dims[k] == 0,
    ensures
        product(dims) == 0,
    decreases dims.len(),
{
    if k == dims.len() - 1 {
        assert(product(dims.drop_last()) * 0 == 0);
    } else {
        lemma_product_zero(dims.drop_last(), k);
        assert(0 * (dims.last() as int) == 0);
    }
}

/// Where no extent from `i` on is zero, the whole product is at least as
/// far from zero as the product of the first `i` extents.
proof fn lemma_product_grows(dims: Seq<i32>, i: int, bound: int)
    requires
        0 <= i <= dims.len(),
        forall|k: int| i <= k < dims.len() ==> dims[k] != 0,
        partial_product(dims, i) > bound || partial_product(dims, i) < -bound,
        bound >= 0,
    ensures
        product(dims) > bound || product(dims) < -bound,
    decreases dims.len() - i,
{
    if i == dims.len() {
        assert(dims.take(i) =~= dims);
    } else {
        lemma_partial_product_step(dims, i);
        let a = partial_product(dims, i);
        let d = dims[i] as int;
        assert(a * d > bound || a * d < -bound) by (nonlinear_arith)
            requires
                a > bound || a < -bound,
                bound >= 0,
                d != 0,
        ;
        lemma_product_grows(dims, i + 1, bound);
    }
}

/// The number of elements of an array with the extents `dims`: their
/// product, where it is a number from 0 to `usize::MAX`.
pub fn element_count(dims: &Vec<i32>) -> (r: Option<usize>)
    ensures
        match r {
            Some(n) => n == product(dims@),
            None => product(dims@) < 0 || product(dims@) > usize::MAX,
        },
{
    let mut k: usize = 0;
    while k < dims.len()
        invariant
            k <= dims.len(),
            forall|j: int| 0 <= j < k ==> dims@[j] != 0,
        decreases dims.len() - k,
    {
        if dims[k] == 0 {
            proof {
                lemma_product_zero(dims@, k as int);
            }
            return Some(0);
        }
        k += 1;
    }
    let limit: i128 = usize::MAX as i128;
    let mut acc: i128 = 1;
    let mut i: usize = 0;
    assert(dims@.take(0) =~= Seq::<i32>::empty());
    while i < dims.len()
        invariant
            i <= dims.len(),
            forall|j: int| 0 <= j < dims.len() ==> dims@[j] != 0,
            acc == partial_product(dims@, i as int),
            limit == usize::MAX,
            -limit <= acc <= limit,
        decreases dims.len() - i,
    {
        let d: i128 = dims[i] as i128;
        proof {
            lemma_partial_product_step(dims@, i as int);
            assert(-39614081257132168796771975168 <= acc * d <= 39614081257132168796771975168)
                by (nonlinear_arith)
                requires
                    -18446744073709551615 <= acc <= 18446744073709551615,
                    -2147483648 <= d <= 2147483647,
            ;
        }
        let next: i128 = acc * d;
        if next > limit || next < -limit {
            proof {
                lemma_product_grows(dims@, i + 1, limit as int);
            }
            return None;
        }
        acc = next;
        i += 1;
    }
    assert(dims@.take(dims.len() as int) =~= dims@);
    if acc < 0 {
        None
    } else {
        Some(acc as usize)
    }
}

} // verus!
