use vstd::prelude::*;

verus! {

/// `num::bigint::BigInt` carries an arbitrary-precision integer; its value is
/// opaque to the verifier, so the type is declared here and every operation on
/// it goes through a contracted wrapper below.
#[verifier::external_type_specification]
#[verifier::external_body]
pub struct ExBigInt(num::bigint::BigInt);

/// The mathematical integer held by a `num::bigint::BigInt`.
pub uninterp spec fn big_value(b: num::bigint::BigInt) -> int;

/// Relies on `num::bigint::BigInt`'s `From<i64>`: the big integer takes
/// exactly the value converted.
#[verifier::external_body]
pub fn big_from_i64(v: i64) -> (r: num::bigint::BigInt)
    ensures
        big_value(r) == v as int,
{
    num::bigint::BigInt::from(v)
}

/// Relies on `num::bigint::BigInt::clone`: the copy holds the same value.
#[verifier::external_body]
pub fn big_clone(a: &num::bigint::BigInt) -> (r: num::bigint::BigInt)
    ensures
        big_value(r) == big_value(*a),
{
    a.clone()
}

/// Relies on addition of `num::bigint::BigInt` references: exact integer
/// addition, never overflowing.
#[verifier::external_body]
pub fn big_add(a: &num::bigint::BigInt, b: &num::bigint::BigInt) -> (r: num::bigint::BigInt)
    ensures
        big_value(r) == big_value(*a) + big_value(*b),
{
    a + b
}

/// Relies on subtraction of `num::bigint::BigInt` references: exact integer
/// subtraction, never overflowing.
#[verifier::external_body]
pub fn big_sub(a: &num::bigint::BigInt, b: &num::bigint::BigInt) -> (r: num::bigint::BigInt)
    ensures
        big_value(r) == big_value(*a) - big_value(*b),
{
    a - b
}

/// Relies on multiplication of `num::bigint::BigInt` references: exact
/// integer multiplication, never overflowing.
#[verifier::external_body]
pub fn big_mul(a: &num::bigint::BigInt, b: &num::bigint::BigInt) -> (r: num::bigint::BigInt)
    ensures
        big_value(r) == big_value(*a) * big_value(*b),
{
    a * b
}

} // verus!
