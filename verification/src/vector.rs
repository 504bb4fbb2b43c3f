use vstd::arithmetic::div_mod::lemma_mod_add_multiples_vanish;
use vstd::arithmetic::div_mod::lemma_small_mod;
use vstd::prelude::*;
use vstd::wrapping::i64_specs;

use crate::AlgoError;

verus! {

/// An ordered, fixed-length sequence of numbers, the operand of a dot
/// product. Immutable once constructed.
#[derive(Debug)]
pub struct Vector {
    pub data: Vec<i64>,
}

impl View for Vector {
    type V = Seq<i64>;

    open spec fn view(&self) -> Seq<i64> {
        self.data@
    }
}

impl Vector {
    pub fn new(data: Vec<i64>) -> (v: Vector)
        ensures
            v@ == data@,
    {
        Vector { data }
    }

    pub fn len(&self) -> (n: usize)
        ensures
            n == self@.len(),
    {
        self.data.len()
    }

    /// Read-only access to the elements in order.
    pub fn iter(&self) -> (r: &Vec<i64>)
        ensures
            r@ == self@,
    {
        &self.data
    }

    /// The element at position `i`.
    pub fn get(&self, i: usize) -> (x: i64)
        requires
            i < self@.len(),
        ensures
            x == self@[i as int],
    {
        self.data[i]
    }
}

/// The sum of the elementwise products of the first `n` positions of `a`
/// and `b`, accumulated left to right with the machine's wrapping `i64`
/// arithmetic, exactly as the executable loop computes it.
pub open spec fn dot_seq(a: Seq<i64>, b: Seq<i64>, n: int) -> i64
    decreases n,
{
    if n <= 0 {
        0i64
    } else {
        i64_specs::wrapping_add(dot_seq(a, b, n - 1), i64_specs::wrapping_mul(a[n - 1], b[n - 1]))
    }
}

/// The same sum over the unbounded integers, with no wrap-around.
pub open spec fn dot_int(a: Seq<i64>, b: Seq<i64>, n: int) -> int
    decreases n,
{
    if n <= 0 {
        0
    } else {
        dot_int(a, b, n - 1) + a[n - 1] * b[n - 1]
    }
}

/// Wrapping addition agrees with addition whenever the sum is in range.
pub proof fn lemma_wrapping_add_in_range(x: i64, y: i64)
    requires
        i64::MIN <= x + y <= i64::MAX,
    ensures
        i64_specs::wrapping_add(x, y) == x + y,
{
}

/// Wrapping multiplication agrees with multiplication whenever the
/// product is in range.
pub proof fn lemma_wrapping_mul_in_range(x: i64, y: i64)
    requires
        i64::MIN <= x * y <= i64::MAX,
    ensures
        i64_specs::wrapping_mul(x, y) == x * y,
{
    let p: int = x * y;
    let range: int = 0x1_0000_0000_0000_0000;
    if p >= 0 {
        lemma_small_mod(p as nat, range as nat);
    } else {
        lemma_mod_add_multiples_vanish(p, range);
        lemma_small_mod((p + range) as nat, range as nat);
    }
}

/// Wherever no intermediate result leaves the `i64` range, the machine
/// dot product equals the mathematical one.
pub proof fn lemma_dot_seq_exact(a: Seq<i64>, b: Seq<i64>, n: int)
    requires
        forall|m: int| 0 <= m < n ==> i64::MIN <= #[trigger] (a[m] * b[m]) <= i64::MAX,
        forall|m: int| 0 <= m <= n ==> i64::MIN <= #[trigger] dot_int(a, b, m) <= i64::MAX,
    ensures
        dot_seq(a, b, n) == dot_int(a, b, n),
    decreases n,
{
    if n > 0 {
        lemma_dot_seq_exact(a, b, n - 1);
        lemma_wrapping_mul_in_range(a[n - 1], b[n - 1]);
        assert(dot_int(a, b, n) == dot_int(a, b, n - 1) + a[n - 1] * b[n - 1]);
        lemma_wrapping_add_in_range(dot_seq(a, b, n - 1), i64_specs::wrapping_mul(a[n - 1], b[n - 1]));
    }
}

/// A dot product against zeros is zero.
proof fn lemma_dot_seq_zero(v: Seq<i64>, e: Seq<i64>, n: int)
    requires
        forall|t: int| 0 <= t < n ==> e[t] == 0i64,
    ensures
        dot_seq(v, e, n) == 0i64,
    decreases n,
{
    if n > 0 {
        lemma_dot_seq_zero(v, e, n - 1);
        lemma_wrapping_mul_in_range(v[n - 1], 0);
        lemma_wrapping_add_in_range(0, 0);
    }
}

/// A dot product against the unit vector with a one at position `j`
/// picks out `v[j]`, with no wrap-around anywhere in the accumulation.
pub proof fn lemma_dot_seq_unit(v: Seq<i64>, e: Seq<i64>, n: int, j: int)
    requires
        0 <= j < n,
        forall|t: int| 0 <= t < n ==> e[t] == (if t == j { 1i64 } else { 0i64 }),
    ensures
        dot_seq(v, e, n) == v[j],
    decreases n,
{
    if n - 1 == j {
        lemma_dot_seq_zero(v, e, j);
        lemma_wrapping_mul_in_range(v[j], 1);
        lemma_wrapping_add_in_range(0, v[j]);
    } else {
        lemma_dot_seq_unit(v, e, n - 1, j);
        lemma_wrapping_mul_in_range(v[n - 1], 0);
        lemma_wrapping_add_in_range(dot_seq(v, e, n - 1), 0);
    }
}

/// The mirror image: a unit vector on the left picks out `v[j]`.
pub proof fn lemma_dot_seq_unit_left(e: Seq<i64>, v: Seq<i64>, n: int, j: int)
    requires
        0 <= j < n,
        forall|t: int| 0 <= t < n ==> e[t] == (if t == j { 1i64 } else { 0i64 }),
    ensures
        dot_seq(e, v, n) == v[j],
    decreases n,
{
    if n - 1 == j {
        lemma_dot_seq_zero_left(e, v, j);
        lemma_wrapping_mul_in_range(1, v[j]);
        lemma_wrapping_add_in_range(0, v[j]);
    } else {
        lemma_dot_seq_unit_left(e, v, n - 1, j);
        lemma_wrapping_mul_in_range(0, v[n - 1]);
        lemma_wrapping_add_in_range(dot_seq(e, v, n - 1), 0);
    }
}

/// A dot product with zeros on the left is zero.
proof fn lemma_dot_seq_zero_left(e: Seq<i64>, v: Seq<i64>, n: int)
    requires
        forall|t: int| 0 <= t < n ==> e[t] == 0i64,
    ensures
        dot_seq(e, v, n) == 0i64,
    decreases n,
{
    if n > 0 {
        lemma_dot_seq_zero_left(e, v, n - 1);
        lemma_wrapping_mul_in_range(0, v[n - 1]);
        lemma_wrapping_add_in_range(0, 0);
    }
}

/// The dot product of two equal-length vectors; vectors of different
/// lengths are rejected before any accumulation.
pub fn dot_product(a: Vector, b: Vector) -> (r: Result<i64, AlgoError>)
    ensures
        a@.len() == b@.len() <==> r is Ok,
        a@.len() == b@.len() ==> r == Ok::<i64, AlgoError>(dot_seq(a@, b@, a@.len() as int)),
        a@.len() != b@.len() ==> r == Err::<i64, AlgoError>(AlgoError::LengthMismatch),
{
    if a.len() != b.len() {
        return Err(AlgoError::LengthMismatch);
    }
    let n = a.len();
    let mut sum: i64 = 0;
    let mut i: usize = 0;
    while i < n
        invariant
            n == a@.len(),
            n == b@.len(),
            i <= n,
            sum == dot_seq(a@, b@, i as int),
        decreases n - i,
    {
        sum = sum.wrapping_add(a.get(i).wrapping_mul(b.get(i)));
        i = i + 1;
    }
    Ok(sum)
}

} // verus!
