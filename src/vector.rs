use vstd::prelude::*;

use crate::error::MatrixError;

verus! {

/// Sum of `a[i] * b[i]` over the first `n` positions, taken left to right.
pub open spec fn dot_prefix(a: Seq<i64>, b: Seq<i64>, n: int) -> int
    decreases n,
{
    if n <= 0 {
        0
    } else {
        dot_prefix(a, b, n - 1) + a[n - 1] * b[n - 1]
    }
}

/// The dot product of two sequences, over the length of the first.
pub open spec fn dot(a: Seq<i64>, b: Seq<i64>) -> int {
    dot_prefix(a, b, a.len() as int)
}

/// Every product and every running sum of the dot product fits in an `i64`.
pub open spec fn dot_fits(a: Seq<i64>, b: Seq<i64>) -> bool {
    forall|i: int|
        0 <= i < a.len() ==> {
            &&& i64::MIN <= #[trigger] (a[i] * b[i]) <= i64::MAX
            &&& i64::MIN <= dot_prefix(a, b, i + 1) <= i64::MAX
        }
}

/// A fixed-length sequence of numbers: a row or a column of a matrix.
pub struct Vector {
    data: Vec<i64>,
}

impl View for Vector {
    type V = Seq<i64>;

    closed spec fn view(&self) -> Seq<i64> {
        self.data@
    }
}

impl Vector {
    pub fn new(data: Vec<i64>) -> (r: Self)
        ensures
            r@ == data@,
    {
        Vector { data }
    }

    pub fn len(&self) -> (r: usize)
        ensures
            r == self@.len(),
    {
        self.data.len()
    }

    pub fn data(&self) -> (r: &Vec<i64>)
        ensures
            r@ == self@,
    {
        &self.data
    }
}

/// Whether the dot product of `a` and `b` stays within `i64` at every step.
pub fn dot_in_range(a: &Vector, b: &Vector) -> (r: bool)
    requires
        a@.len() == b@.len(),
    ensures
        r == dot_fits(a@, b@),
{
    let n = a.len();
    let mut sum: i64 = 0;
    for i in 0..n
        invariant
            n == a@.len(),
            n == b@.len(),
            sum == dot_prefix(a@, b@, i as int),
            forall|q: int|
                0 <= q < i ==> {
                    &&& i64::MIN <= #[trigger] (a@[q] * b@[q]) <= i64::MAX
                    &&& i64::MIN <= dot_prefix(a@, b@, q + 1) <= i64::MAX
                },
    {
        let x = a.data[i];
        let y = b.data[i];
        match x.checked_mul(y) {
            None => {
                assert(!(i64::MIN <= a@[i as int] * b@[i as int] <= i64::MAX));
                return false;
            },
            Some(p) => match sum.checked_add(p) {
                None => {
                    assert(!(i64::MIN <= dot_prefix(a@, b@, i + 1) <= i64::MAX));
                    return false;
                },
                Some(t) => {
                    sum = t;
                },
            },
        }
    }
    true
}

/// The sum of the element-wise products of `a` and `b`, accumulated left to
/// right from zero; fails when the lengths differ.
pub fn dot_product(a: Vector, b: Vector) -> (r: Result<i64, MatrixError>)
    requires
        a@.len() == b@.len() ==> dot_fits(a@, b@),
    ensures
        r is Err <==> a@.len() != b@.len(),
        r matches Err(e) ==> e == MatrixError::DimensionMismatch,
        r matches Ok(v) ==> v == dot(a@, b@),
{
    if a.len() != b.len() {
        return Err(MatrixError::DimensionMismatch);
    }
    let mut sum: i64 = 0;
    let n = a.len();
    for i in 0..n
        invariant
            n == a@.len(),
            n == b@.len(),
            dot_fits(a@, b@),
            sum == dot_prefix(a@, b@, i as int),
    {
        let x = a.data[i];
        let y = b.data[i];
        assert(i64::MIN <= x * y <= i64::MAX);
        let p = x * y;
        assert(i64::MIN <= dot_prefix(a@, b@, i + 1) <= i64::MAX);
        sum = sum + p;
    }
    Ok(sum)
}

} // verus!
