use vstd::prelude::*;

use vstd::arithmetic::div_mod::{
    lemma_add_mod_noop, lemma_mod_add_multiples_vanish, lemma_small_mod, lemma_sub_mod_noop,
};

verus! {

/// The arithmetic contract required of field-data scalars: total executable
/// addition, subtraction and multiplication, each pinned exactly to a
/// specification-level counterpart, together with the two ring constants.
pub trait NumericScalar: Sized + Copy {
    /// What the executable addition returns.
    spec fn add_spec(self, rhs: Self) -> Self;

    /// What the executable subtraction returns.
    spec fn sub_spec(self, rhs: Self) -> Self;

    /// What the executable multiplication returns.
    spec fn mul_spec(self, rhs: Self) -> Self;

    /// The additive identity.
    spec fn zero_spec() -> Self;

    /// The multiplicative identity.
    spec fn one_spec() -> Self;

    /// Add two scalars.
    fn plus(self, rhs: Self) -> (r: Self)
        ensures
            r == self.add_spec(rhs),
    ;

    /// Subtract a scalar from this one.
    fn minus(self, rhs: Self) -> (r: Self)
        ensures
            r == self.sub_spec(rhs),
    ;

    /// Multiply two scalars.
    fn times(self, rhs: Self) -> (r: Self)
        ensures
            r == self.mul_spec(rhs),
    ;

    /// Produce the additive identity.
    fn zero() -> (r: Self)
        ensures
            r == Self::zero_spec(),
    ;

    /// Produce the multiplicative identity.
    fn one() -> (r: Self)
        ensures
            r == Self::one_spec(),
    ;
}

/// Machine integers with wrapping semantics satisfy the scalar contract;
/// within their range the operations are exact integer arithmetic.
impl NumericScalar for i64 {
    open spec fn add_spec(self, rhs: i64) -> i64 {
        vstd::wrapping::i64_specs::wrapping_add(self, rhs)
    }

    open spec fn sub_spec(self, rhs: i64) -> i64 {
        vstd::wrapping::i64_specs::wrapping_sub(self, rhs)
    }

    open spec fn mul_spec(self, rhs: i64) -> i64 {
        vstd::wrapping::i64_specs::wrapping_mul(self, rhs)
    }

    open spec fn zero_spec() -> i64 {
        0
    }

    open spec fn one_spec() -> i64 {
        1
    }

    fn plus(self, rhs: i64) -> (r: i64) {
        self.wrapping_add(rhs)
    }

    fn minus(self, rhs: i64) -> (r: i64) {
        self.wrapping_sub(rhs)
    }

    fn times(self, rhs: i64) -> (r: i64) {
        self.wrapping_mul(rhs)
    }

    fn zero() -> (r: i64) {
        0
    }

    fn one() -> (r: i64) {
        1
    }
}

/// Dot product of two equally long scalar sequences, the products summed in
/// ascending index order.
pub open spec fn spec_dot<D: NumericScalar>(a: Seq<D>, b: Seq<D>) -> D
    decreases a.len(),
{
    if a.len() == 0 || b.len() == 0 {
        D::zero_spec()
    } else {
        spec_dot(a.drop_last(), b.drop_last()).add_spec(a.last().mul_spec(b.last()))
    }
}

/// Sum of a scalar sequence in ascending index order.
pub open spec fn spec_sum<D: NumericScalar>(s: Seq<D>) -> D
    decreases s.len(),
{
    if s.len() == 0 {
        D::zero_spec()
    } else {
        spec_sum(s.drop_last()).add_spec(s.last())
    }
}

/// Compute the dot product of two equally long scalar slices.
pub fn dot_product<D: NumericScalar>(a: &[D], b: &[D]) -> (r: D)
    requires
        a@.len() == b@.len(),
    ensures
        r == spec_dot(a@, b@),
{
    let mut acc = D::zero();
    let mut i: usize = 0;
    assert(a@.take(0) =~= Seq::<D>::empty());
    while i < a.len()
        invariant
            i <= a@.len() == b@.len(),
            acc == spec_dot(a@.take(i as int), b@.take(i as int)),
        decreases a@.len() - i,
    {
        acc = acc.plus(a[i].times(b[i]));
        proof {
            assert(a@.take(i + 1).drop_last() =~= a@.take(i as int));
            assert(b@.take(i + 1).drop_last() =~= b@.take(i as int));
            assert(a@.take(i + 1).last() == a@[i as int]);
            assert(b@.take(i + 1).last() == b@[i as int]);
        }
        i = i + 1;
    }
    proof {
        assert(a@.take(a@.len() as int) =~= a@);
        assert(b@.take(b@.len() as int) =~= b@);
    }
    acc
}

/// Copy a vector of scalars.
pub fn copy_values<T: Copy>(v: &Vec<T>) -> (r: Vec<T>)
    ensures
        r@ == v@,
{
    let mut r: Vec<T> = Vec::new();
    let mut i: usize = 0;
    while i < v.len()
        invariant
            i <= v@.len(),
            r@ == v@.take(i as int),
        decreases v@.len() - i,
    {
        r.push(v[i]);
        assert(r@ =~= v@.take(i + 1));
        i = i + 1;
    }
    assert(v@.take(v@.len() as int) =~= v@);
    r
}

/// The value of a machine integer is unchanged by the wrap-around map.
proof fn lemma_crop_identity(x: i64)
    ensures
        vstd::wrapping::i64_specs::signed_crop(x as int) == x,
{
    let m: int = 0x1_0000_0000_0000_0000;
    if x >= 0 {
        lemma_small_mod(x as nat, m as nat);
    } else {
        lemma_mod_add_multiples_vanish(x as int, m);
        lemma_small_mod((x + m) as nat, m as nat);
    }
}

/// Wrapping addition is congruent to exact addition modulo `2^64`.
proof fn lemma_wrap_add_congruence(a: i64, b: i64)
    ensures
        -0x8000_0000_0000_0000 <= vstd::wrapping::i64_specs::wrapping_add(a, b)
            <= 0x7fff_ffff_ffff_ffff,
        (vstd::wrapping::i64_specs::wrapping_add(a, b) as int) % 0x1_0000_0000_0000_0000 == (
        a as int + b as int) % 0x1_0000_0000_0000_0000,
{
    let m: int = 0x1_0000_0000_0000_0000;
    let s = a as int + b as int;
    if s > i64::MAX {
        assert((s - m) % m == s % m) by {
            lemma_mod_add_multiples_vanish(s - m, m);
        }
    } else if s < i64::MIN {
        assert((s + m) % m == s % m) by {
            lemma_mod_add_multiples_vanish(s, m);
        }
    }
}

/// Wrapping subtraction is congruent to exact subtraction modulo `2^64`.
proof fn lemma_wrap_sub_congruence(a: i64, b: i64)
    ensures
        -0x8000_0000_0000_0000 <= vstd::wrapping::i64_specs::wrapping_sub(a, b)
            <= 0x7fff_ffff_ffff_ffff,
        (vstd::wrapping::i64_specs::wrapping_sub(a, b) as int) % 0x1_0000_0000_0000_0000 == (
        a as int - b as int) % 0x1_0000_0000_0000_0000,
{
    let m: int = 0x1_0000_0000_0000_0000;
    let s = a as int - b as int;
    if s > i64::MAX {
        assert((s - m) % m == s % m) by {
            lemma_mod_add_multiples_vanish(s - m, m);
        }
    } else if s < i64::MIN {
        assert((s + m) % m == s % m) by {
            lemma_mod_add_multiples_vanish(s, m);
        }
    }
}

/// Two machine integers congruent modulo `2^64` are equal.
proof fn lemma_congruent_i64_equal(a: i64, b: i64)
    requires
        (a as int) % 0x1_0000_0000_0000_0000 == (b as int) % 0x1_0000_0000_0000_0000,
    ensures
        a == b,
{
    let m: int = 0x1_0000_0000_0000_0000;
    lemma_sub_mod_noop(a as int, b as int, m);
    if a >= b {
        lemma_small_mod((a - b) as nat, m as nat);
    } else {
        lemma_small_mod((b - a) as nat, m as nat);
        lemma_sub_mod_noop(b as int, a as int, m);
    }
}

/// The integer views of a scalar sequence.
pub open spec fn int_views(s: Seq<i64>) -> Seq<int> {
    s.map_values(|x: i64| x as int)
}

/// Sum of the integer views, in ascending index order.
pub open spec fn spec_sum_exact(s: Seq<i64>) -> int {
    crate::numeric::combinatorics::sum_int(int_views(s))
}

/// The wrapped sum of machine integers is congruent to their exact sum
/// modulo `2^64`.
pub proof fn lemma_sum_congruence(s: Seq<i64>)
    ensures
        (spec_sum(s) as int) % 0x1_0000_0000_0000_0000 == spec_sum_exact(s)
            % 0x1_0000_0000_0000_0000,
    decreases s.len(),
{
    let m: int = 0x1_0000_0000_0000_0000;
    if s.len() == 0 {
        lemma_small_mod(0, m as nat);
    } else {
        lemma_sum_congruence(s.drop_last());
        assert(int_views(s).drop_last() =~= int_views(s.drop_last()));
        assert(int_views(s).last() == s.last() as int);
        lemma_wrap_add_congruence(spec_sum(s.drop_last()), s.last());
        lemma_add_mod_noop(spec_sum(s.drop_last()) as int, s.last() as int, m);
        lemma_add_mod_noop(spec_sum_exact(s.drop_last()), s.last() as int, m);
    }
}

/// Successive wrapping subtraction of every entry of `s` from `start`, in
/// ascending index order.
pub open spec fn spec_fold_sub(start: i64, s: Seq<i64>) -> i64
    decreases s.len(),
{
    if s.len() == 0 {
        start
    } else {
        vstd::wrapping::i64_specs::wrapping_sub(spec_fold_sub(start, s.drop_last()), s.last())
    }
}

/// The wrapped cumulative difference is congruent to the exact difference
/// modulo `2^64`.
pub proof fn lemma_fold_sub_congruence(start: i64, s: Seq<i64>)
    ensures
        (spec_fold_sub(start, s) as int) % 0x1_0000_0000_0000_0000 == (start as int
            - crate::numeric::combinatorics::sum_int(int_views(s))) % 0x1_0000_0000_0000_0000,
    decreases s.len(),
{
    let m: int = 0x1_0000_0000_0000_0000;
    if s.len() == 0 {
        assert(int_views(s) =~= Seq::<int>::empty());
    } else {
        lemma_fold_sub_congruence(start, s.drop_last());
        assert(int_views(s).drop_last() =~= int_views(s.drop_last()));
        assert(int_views(s).last() == s.last() as int);
        let prev = spec_fold_sub(start, s.drop_last());
        let sum_prev = crate::numeric::combinatorics::sum_int(int_views(s.drop_last()));
        lemma_wrap_sub_congruence(prev, s.last());
        lemma_sub_mod_noop(prev as int, s.last() as int, m);
        lemma_sub_mod_noop(start - sum_prev, s.last() as int, m);
    }
}

/// Multiplying a machine integer by one returns it unchanged.
proof fn lemma_mul_one_identity(x: i64)
    ensures
        x.mul_spec(1i64) == x,
{
    lemma_crop_identity(x);
}

/// A dot product against the constant-one sequence is the plain sum of the
/// other operand: integrating the constant function one yields the sum of
/// the weights.
pub proof fn lemma_dot_ones(w: Seq<i64>, v: Seq<i64>)
    requires
        v.len() == w.len(),
        forall|i: int| 0 <= i < v.len() ==> v[i] == 1i64,
    ensures
        spec_dot(w, v) == spec_sum(w),
    decreases w.len(),
{
    if w.len() > 0 {
        lemma_dot_ones(w.drop_last(), v.drop_last());
        lemma_mul_one_identity(w.last());
        assert(v.last() == v[v.len() - 1]);
    }
}

/// Two machine integers congruent modulo `2^64` are equal; public form used
/// by laws stated over wrapped sums.
pub proof fn lemma_same_remainder_i64(a: i64, b: i64)
    requires
        (a as int) % 0x1_0000_0000_0000_0000 == (b as int) % 0x1_0000_0000_0000_0000,
    ensures
        a == b,
{
    lemma_congruent_i64_equal(a, b);
}

} // verus!
