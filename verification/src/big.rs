//! The trusted boundary around the arbitrary-precision integer substrate.
//!
//! `num_bigint` supplies the big integers, `rand` the uniform sampling and
//! `primal` the ascending stream of primes.  Every call into those crates
//! goes through exactly one wrapper here, whose contract states what the
//! crate's source shows, over the content names `unat` and `sval`.
use vstd::prelude::*;
use vstd::arithmetic::power2::pow2;
use num_bigint::{BigInt, BigUint, RandBigInt};
use num_integer::Integer;
use rand::rngs::ThreadRng;
use crate::arith::{be_val, be_bytes_of, spec_prime};

verus! {

#[verifier::external_type_specification]
#[verifier::external_body]
pub struct ExBigUint(BigUint);

#[verifier::external_type_specification]
#[verifier::external_body]
pub struct ExBigInt(BigInt);

#[verifier::external_type_specification]
#[verifier::external_body]
pub struct ExThreadRng(ThreadRng);

/// The non-negative integer a `BigUint` holds.
pub uninterp spec fn unat(x: BigUint) -> nat;

/// The integer a `BigInt` holds.
pub uninterp spec fn sval(x: BigInt) -> int;

/// Relies on `BigUint: From<u64>`.
#[verifier::external_body]
pub(crate) fn u_from(v: u64) -> (r: BigUint)
    ensures
        unat(r) == v as nat,
{
    BigUint::from(v)
}

/// Relies on `BigUint: Clone`: the copy holds the same value.
#[verifier::external_body]
pub(crate) fn u_clone(a: &BigUint) -> (r: BigUint)
    ensures
        unat(r) == unat(*a),
{
    a.clone()
}

/// Relies on `Add for BigUint`.
#[verifier::external_body]
pub(crate) fn u_add(a: &BigUint, b: &BigUint) -> (r: BigUint)
    ensures
        unat(r) == unat(*a) + unat(*b),
{
    a + b
}

/// Relies on `Sub for BigUint`, which panics on underflow: the
/// precondition rules that out.
#[verifier::external_body]
pub(crate) fn u_sub(a: &BigUint, b: &BigUint) -> (r: BigUint)
    requires
        unat(*b) <= unat(*a),
    ensures
        unat(r) == unat(*a) - unat(*b),
{
    a - b
}

/// Relies on `Mul for BigUint`.
#[verifier::external_body]
pub(crate) fn u_mul(a: &BigUint, b: &BigUint) -> (r: BigUint)
    ensures
        unat(r) == unat(*a) * unat(*b),
{
    a * b
}

/// Relies on `Rem for BigUint`, which panics on a zero divisor: the
/// precondition rules that out.
#[verifier::external_body]
pub(crate) fn u_rem(a: &BigUint, b: &BigUint) -> (r: BigUint)
    requires
        unat(*b) > 0,
    ensures
        unat(r) == unat(*a) % unat(*b),
{
    a % b
}

/// Relies on `PartialEq for BigUint`.
#[verifier::external_body]
pub(crate) fn u_eq(a: &BigUint, b: &BigUint) -> (r: bool)
    ensures
        r == (unat(*a) == unat(*b)),
{
    a == b
}

/// Relies on `PartialOrd for BigUint`.
#[verifier::external_body]
pub(crate) fn u_lt(a: &BigUint, b: &BigUint) -> (r: bool)
    ensures
        r == (unat(*a) < unat(*b)),
{
    a < b
}

/// Relies on `num_integer::Integer::is_even` for `BigUint`.
#[verifier::external_body]
pub(crate) fn u_is_even(a: &BigUint) -> (r: bool)
    ensures
        r == (unat(*a) % 2 == 0),
{
    a.is_even()
}

/// Relies on `Shr<u32> for BigUint`: shifting right by one halves the value.
#[verifier::external_body]
pub(crate) fn u_shr1(a: &BigUint) -> (r: BigUint)
    ensures
        unat(r) == unat(*a) / 2,
{
    a >> 1u32
}

/// Relies on `BigUint::to_bytes_be`: the shortest big-endian byte string,
/// with zero written as one zero byte.
#[verifier::external_body]
pub(crate) fn u_to_bytes_be(a: &BigUint) -> (r: Vec<u8>)
    ensures
        r@ == be_bytes_of(unat(*a)),
{
    a.to_bytes_be()
}

/// Relies on `BigUint::from_bytes_be`: reads a big-endian byte string.
#[verifier::external_body]
pub(crate) fn u_from_bytes_be(b: &[u8]) -> (r: BigUint)
    ensures
        unat(r) == be_val(b@),
{
    BigUint::from_bytes_be(b)
}

/// Relies on `BigInt: From<BigUint>`.
#[verifier::external_body]
pub(crate) fn i_from_u(a: &BigUint) -> (r: BigInt)
    ensures
        sval(r) == unat(*a),
{
    BigInt::from(a.clone())
}

/// Relies on `BigInt: From<u64>`.
#[verifier::external_body]
pub(crate) fn i_from_u64(v: u64) -> (r: BigInt)
    ensures
        sval(r) == v as int,
{
    BigInt::from(v)
}

/// Relies on `Add for BigInt`.
#[verifier::external_body]
pub(crate) fn i_add(a: &BigInt, b: &BigInt) -> (r: BigInt)
    ensures
        sval(r) == sval(*a) + sval(*b),
{
    a + b
}

/// Relies on `Sub for BigInt`.
#[verifier::external_body]
pub(crate) fn i_sub(a: &BigInt, b: &BigInt) -> (r: BigInt)
    ensures
        sval(r) == sval(*a) - sval(*b),
{
    a - b
}

/// Relies on `Mul for BigInt`.
#[verifier::external_body]
pub(crate) fn i_mul(a: &BigInt, b: &BigInt) -> (r: BigInt)
    ensures
        sval(r) == sval(*a) * sval(*b),
{
    a * b
}

/// Relies on `Div for BigInt`, which truncates toward zero; on the
/// non-negative operands the precondition admits, that is Euclidean
/// division.  Panics on a zero divisor: the precondition rules that out.
#[verifier::external_body]
pub(crate) fn i_div(a: &BigInt, b: &BigInt) -> (r: BigInt)
    requires
        sval(*a) >= 0,
        sval(*b) > 0,
    ensures
        sval(r) == sval(*a) / sval(*b),
{
    a / b
}

/// Relies on `Rem for BigInt`, which takes the sign of the dividend;
/// panics on a zero divisor: the precondition rules that out.
#[verifier::external_body]
pub(crate) fn i_rem(a: &BigInt, b: &BigInt) -> (r: BigInt)
    requires
        sval(*b) > 0,
    ensures
        sval(*a) >= 0 ==> sval(r) == sval(*a) % sval(*b),
        sval(*a) < 0 ==> sval(r) == -((-sval(*a)) % sval(*b)),
{
    a % b
}

/// Relies on `PartialEq for BigInt`.
#[verifier::external_body]
pub(crate) fn i_eq(a: &BigInt, b: &BigInt) -> (r: bool)
    ensures
        r == (sval(*a) == sval(*b)),
{
    a == b
}

/// Relies on `PartialOrd for BigInt`.
#[verifier::external_body]
pub(crate) fn i_lt(a: &BigInt, b: &BigInt) -> (r: bool)
    ensures
        r == (sval(*a) < sval(*b)),
{
    a < b
}

/// Relies on `BigInt::to_biguint`, which succeeds exactly on
/// non-negative values: the precondition supplies one.
#[verifier::external_body]
pub(crate) fn i_to_u(a: &BigInt) -> (r: BigUint)
    requires
        sval(*a) >= 0,
    ensures
        unat(r) == sval(*a),
{
    a.to_biguint().unwrap()
}

/// Relies on `rand::thread_rng` for a process-local random source.
#[verifier::external_body]
pub(crate) fn rng_new() -> ThreadRng {
    rand::thread_rng()
}

/// Relies on `num_bigint::RandBigInt::gen_biguint`: a uniform sample
/// among the values of at most `bits` bits.
#[verifier::external_body]
pub(crate) fn rng_biguint(rng: &mut ThreadRng, bits: u64) -> (r: BigUint)
    ensures
        unat(r) < pow2(bits as nat),
{
    rng.gen_biguint(bits)
}

/// Relies on `num_bigint::RandBigInt::gen_biguint_range`: a uniform
/// sample in `[lo, hi)`; it panics unless `lo < hi`, which the
/// precondition supplies.
#[verifier::external_body]
pub(crate) fn rng_biguint_range(rng: &mut ThreadRng, lo: &BigUint, hi: &BigUint) -> (r: BigUint)
    requires
        unat(*lo) < unat(*hi),
    ensures
        unat(*lo) <= unat(r) < unat(*hi),
{
    rng.gen_biguint_range(lo, hi)
}

/// Relies on `primal::Primes::all`, the ascending sequence
/// 2, 3, 5, 7, ... of all primes: the first `bound` of them, so every
/// prime below an entry stands before it.
#[verifier::external_body]
pub(crate) fn small_primes(bound: usize) -> (r: Vec<usize>)
    ensures
        r@.len() == bound,
        forall|i: int| 0 <= i < r@.len() ==> spec_prime(#[trigger] r@[i] as nat),
        forall|i: int, j: int| 0 <= i < j < r@.len() ==> r@[i] < r@[j],
        forall|i: int, q: nat|
            0 <= i < r@.len() && spec_prime(q) && q < r@[i] as nat
                ==> exists|j: int| 0 <= j < i && #[trigger] r@[j] as nat == q,
{
    primal::Primes::all().take(bound).collect::<Vec<usize>>()
}

} // verus!
