//! The number-theoretic engine: modular exponentiation by squaring,
//! trial division and Miller–Rabin primality testing, prime sampling,
//! and the extended Euclidean algorithm with its modular inverse.
use vstd::prelude::*;
use vstd::arithmetic::power::{pow, lemma_pow_mod_noop, lemma_pow_multiplies, lemma_pow_adds, lemma_pow1, lemma_pow0};
use vstd::arithmetic::div_mod::{
    lemma_fundamental_div_mod, lemma_mod_bound, lemma_small_mod,
    lemma_mul_mod_noop_general, lemma_mul_mod_noop_right,
    lemma_sub_mod_noop, lemma_mod_self_0, lemma_fundamental_div_mod_converse_mod,
};
use num_bigint::{BigInt, BigUint};
use crate::big::{
    unat, u_from, u_clone, u_add, u_sub, u_mul, u_rem, u_eq, u_lt, u_is_even, u_shr1,
    sval, i_from_u, i_from_u64, i_add, i_sub, i_mul, i_div, i_rem, i_eq, i_lt, i_to_u,
    rng_new, rng_biguint, rng_biguint_range, small_primes,
};
use crate::arith::{gcd, lemma_gcd_nonzero, lemma_gcd_sym, spec_prime, lemma_composite_has_prime_factor};

verus! {

/// Modular exponentiation by squaring: `base^exponent mod modulus`.
pub fn mod_exp(base: &BigUint, exponent: &BigUint, modulus: &BigUint) -> (r: BigUint)
    requires
        unat(*modulus) > 0,
    ensures
        unat(r) == pow(unat(*base) as int, unat(*exponent)) % (unat(*modulus) as int),
{
    let ghost m: int = unat(*modulus) as int;
    let ghost target: int = pow(unat(*base) as int, unat(*exponent)) % m;
    let zero = u_from(0);
    let one = u_from(1);
    let mut result = u_rem(&one, modulus);
    let mut b = u_clone(base);
    let mut exp = u_clone(exponent);
    proof {
        lemma_mod_bound(1, m);
        lemma_pow0(unat(b) as int);
        lemma_small_mod(unat(result), unat(*modulus));
        lemma_mul_mod_noop_general(1, pow(unat(*base) as int, unat(*exponent)), m);
        assert(1 * pow(unat(*base) as int, unat(*exponent))
            == pow(unat(*base) as int, unat(*exponent)));
    }
    while u_lt(&zero, &exp)
        invariant
            unat(zero) == 0,
            unat(*modulus) > 0,
            m == unat(*modulus) as int,
            unat(result) < unat(*modulus),
            target == pow(unat(*base) as int, unat(*exponent)) % m,
            (unat(result) * pow(unat(b) as int, unat(exp))) % m == target,
        decreases unat(exp),
    {
        let ghost r0: int = unat(result) as int;
        let ghost b0: int = unat(b) as int;
        let ghost e0: nat = unat(exp);
        let ghost k: nat = e0 / 2;
        proof {
            lemma_fundamental_div_mod(e0 as int, 2);
            // pow(b0, 2) == b0 * b0, and pow(b0 * b0, k) == pow(b0, 2 * k)
            lemma_pow1(b0);
            lemma_pow_adds(b0, 1, 1);
            lemma_pow_multiplies(b0, 2, k);
        }
        if !u_is_even(&exp) {
            // e0 == 2 * k + 1, so pow(b0, e0) == b0 * pow(b0 * b0, k)
            proof {
                lemma_pow_adds(b0, 1, (2 * k) as nat);
                assert(r0 * (b0 * pow(b0 * b0, k)) == (r0 * b0) * pow(b0 * b0, k))
                    by (nonlinear_arith);
                lemma_mul_mod_noop_general(r0 * b0, pow(b0 * b0, k), m);
            }
            result = u_rem(&u_mul(&result, &b), modulus);
        }
        proof {
            let rn: int = unat(result) as int;
            // replace the squared base by its remainder under the modulus
            lemma_pow_mod_noop(b0 * b0, k, m);
            lemma_mul_mod_noop_right(rn, pow(b0 * b0, k), m);
            lemma_mul_mod_noop_right(rn, pow((b0 * b0) % m, k), m);
        }
        b = u_rem(&u_mul(&b, &b), modulus);
        exp = u_shr1(&exp);
        proof {
            lemma_mod_bound(unat(result) as int, m);
        }
    }
    proof {
        lemma_pow0(unat(b) as int);
        lemma_small_mod(unat(result), unat(*modulus));
    }
    result
}

/// Split a positive `n` into `2^s * d` with `d` odd.
pub fn rewrite(n: &BigUint) -> (r: (BigUint, BigUint))
    requires
        unat(*n) >= 1,
    ensures
        pow(2, unat(r.0)) * unat(r.1) == unat(*n),
        unat(r.1) % 2 == 1,
{
    let one = u_from(1);
    let mut d = u_clone(n);
    let mut s = u_from(0);
    proof {
        lemma_pow0(2);
    }
    while u_is_even(&d)
        invariant
            unat(one) == 1,
            unat(d) >= 1,
            pow(2, unat(s)) * unat(d) == unat(*n),
        decreases unat(d),
    {
        let ghost s0: nat = unat(s);
        let ghost d0: nat = unat(d);
        d = u_shr1(&d);
        s = u_add(&s, &one);
        proof {
            lemma_fundamental_div_mod(d0 as int, 2);
            lemma_pow_adds(2, s0, 1);
            lemma_pow1(2);
            assert(pow(2, s0 + 1) * (d0 / 2) == pow(2, s0) * d0) by (nonlinear_arith)
                requires
                    d0 % 2 == 0,
                    d0 == 2 * (d0 / 2) + d0 % 2,
                    pow(2, s0 + 1) == pow(2, s0) * 2;
        }
    }
    (s, d)
}

/// A list of primes in ascending order grows at least as fast as the
/// integers: the entry at index `j` is at least `2 + j`.
proof fn lemma_prime_list_lower(v: Seq<usize>, j: int)
    requires
        forall|i: int| 0 <= i < v.len() ==> spec_prime(#[trigger] v[i] as nat),
        forall|i1: int, i2: int| 0 <= i1 < i2 < v.len() ==> v[i1] < v[i2],
        0 <= j < v.len(),
    ensures
        v[j] as nat >= 2 + j,
    decreases j,
{
    if j > 0 {
        lemma_prime_list_lower(v, j - 1);
    }
}

/// Miller–Rabin probabilistic primality test with 128 random rounds.
///
/// A verdict of `true` means "probably prime": the contract pins the
/// outcome only where it does not depend on the sampled witnesses.
fn rabin_miller(candidate: &BigUint) -> (r: bool)
    requires
        unat(*candidate) != 1,
    ensures
        unat(*candidate) == 2 || unat(*candidate) == 3 ==> r,
        unat(*candidate) % 2 == 0 && unat(*candidate) != 2 ==> !r,
{
    let one = u_from(1);
    let two = u_from(2);
    let three = u_from(3);
    if u_eq(candidate, &two) {
        return true;
    }
    if u_eq(candidate, &three) {
        return true;
    }
    if u_is_even(candidate) {
        return false;
    }
    assert(unat(*candidate) >= 5);
    let cm1 = u_sub(candidate, &one);
    let (s, d) = rewrite(&cm1);
    let mut rng = rng_new();
    for _round in 0..128usize
        invariant
            unat(*candidate) >= 5,
            unat(one) == 1,
            unat(two) == 2,
            unat(cm1) == unat(*candidate) - 1,
    {
        let basis = rng_biguint_range(&mut rng, &two, &cm1);
        let mut x = mod_exp(&basis, &d, candidate);
        if !(u_eq(&x, &one) || u_eq(&x, &cm1)) {
            let mut countdown = u_clone(&s);
            let mut pass = false;
            let mut stop = false;
            while u_lt(&one, &countdown) && !pass && !stop
                invariant
                    unat(*candidate) >= 5,
                    unat(one) == 1,
                    unat(cm1) == unat(*candidate) - 1,
                decreases unat(countdown),
            {
                x = u_rem(&u_mul(&x, &x), candidate);
                if u_eq(&x, &one) {
                    stop = true;
                } else if u_eq(&x, &cm1) {
                    pass = true;
                }
                countdown = u_sub(&countdown, &one);
            }
            if !pass {
                return false;
            }
        }
    }
    true
}

/// Primality decision: trial division by the first hundred primes, then
/// Miller–Rabin.  For candidates up to 101 the verdict is proved exact;
/// beyond that a `true` is probabilistic in the usual Miller–Rabin sense.
pub fn is_prime(candidate: &BigUint) -> (r: bool)
    requires
        unat(*candidate) != 1,
    ensures
        unat(*candidate) == 2 || unat(*candidate) == 3 ==> r,
        unat(*candidate) % 2 == 0 && unat(*candidate) != 2 ==> !r,
        spec_prime(unat(*candidate)) && unat(*candidate) <= 101 ==> r,
        2 <= unat(*candidate) <= 101 && !spec_prime(unat(*candidate)) ==> !r,
{
    let sp = small_primes(100);
    let ghost c: nat = unat(*candidate);
    proof {
        assert(spec_prime(2));
        assert(spec_prime(3)) by {
            assert(forall|k: nat| 2 <= k < 3 ==> #[trigger] (3nat % k) != 0) by {
                assert(3nat % 2nat == 1);
            }
        }
        // the list begins 2, 3
        if sp@[0] as nat > 2 {
            assert(exists|j: int| 0 <= j < 0 && #[trigger] sp@[j] as nat == 2);
        }
        assert(sp@[0] as nat == 2);
        if sp@[1] as nat > 3 {
            assert(exists|j: int| 0 <= j < 1 && #[trigger] sp@[j] as nat == 3);
        }
        assert(sp@[1] as nat == 3);
        lemma_prime_list_lower(sp@, 99);
    }
    let mut idx: usize = 0;
    while idx < sp.len()
        invariant
            unat(*candidate) == c,
            c != 1,
            idx <= sp@.len() == 100,
            sp@[0] as nat == 2,
            sp@[1] as nat == 3,
            sp@[99] as nat >= 101,
            forall|i: int| 0 <= i < sp@.len() ==> spec_prime(#[trigger] sp@[i] as nat),
            forall|i: int, q: nat|
                0 <= i < sp@.len() && spec_prime(q) && q < sp@[i] as nat
                    ==> exists|j: int| 0 <= j < i && #[trigger] sp@[j] as nat == q,
            forall|j: int| 0 <= j < idx
                ==> c != #[trigger] sp@[j] as nat && c % (sp@[j] as nat) != 0,
        decreases sp@.len() - idx,
    {
        let p = sp[idx];
        let bigp = u_from(p as u64);
        assert(spec_prime(sp@[idx as int] as nat));
        if u_eq(candidate, &bigp) {
            return true;
        }
        let zero = u_from(0);
        let remainder = u_rem(candidate, &bigp);
        if u_eq(&remainder, &zero) {
            proof {
                let pv = sp@[idx as int] as nat;
                // a proper small-prime divisor rules the candidate out
                if pv > c {
                    lemma_small_mod(c, pv);
                    assert(c == 0);
                }
                if c == 2 || c == 3 {
                    if pv > c {
                        lemma_small_mod(c, pv);
                    }
                    assert(false);
                }
                if spec_prime(c) {
                    assert(2 <= pv < c);
                    assert(c % pv != 0);
                    assert(false);
                }
            }
            return false;
        }
        idx += 1;
    }
    proof {
        assert(c != 2 && c != 3);
        assert(c % 2 != 0) by {
            assert(c != sp@[0] as nat && c % (sp@[0] as nat) != 0);
        }
        if spec_prime(c) && c <= 101 {
            assert(c != sp@[99] as nat);
            assert(c < sp@[99] as nat);
            assert(exists|j: int| 0 <= j < 99 && #[trigger] sp@[j] as nat == c);
            assert(false);
        }
        if 2 <= c <= 101 && !spec_prime(c) {
            lemma_composite_has_prime_factor(c);
            let p = choose|p: nat| spec_prime(p) && 2 <= p < c && #[trigger] (c % p) == 0;
            assert(p < sp@[99] as nat);
            assert(exists|j: int| 0 <= j < 99 && #[trigger] sp@[j] as nat == p);
            let j = choose|j: int| 0 <= j < 99 && #[trigger] sp@[j] as nat == p;
            assert(c % (sp@[j] as nat) != 0);
            assert(false);
        }
    }
    rabin_miller(candidate)
}

/// Search for a probable prime of at most `bitsize` bits: sample once,
/// force the candidate odd, then step by two until a candidate passes
/// `is_prime` or the attempt budget runs out.
pub fn big_prime(bitsize: usize) -> (r: Option<BigUint>)
    ensures
        r matches Some(p) ==> unat(p) % 2 == 1 && unat(p) >= 3,
{
    let one = u_from(1);
    let two = u_from(2);
    let mut rng = rng_new();
    let mut candidate = rng_biguint(&mut rng, bitsize as u64);
    if u_is_even(&candidate) {
        candidate = u_add(&candidate, &one);
    }
    let mut tries: usize = 0;
    while tries < 65536
        invariant
            unat(one) == 1,
            unat(two) == 2,
            unat(candidate) % 2 == 1,
        decreases 65536 - tries,
    {
        if !u_eq(&candidate, &one) && is_prime(&candidate) {
            return Some(candidate);
        }
        candidate = u_add(&candidate, &two);
        tries += 1;
    }
    None
}

/// A probable prime suitable for RSA with public exponent `e`: one whose
/// remainder modulo `e` is not one, so that `e` stays invertible modulo
/// the totient in the surrounding key generation.
pub fn rsa_prime(size: usize, e: &BigUint) -> (r: Option<BigUint>)
    requires
        unat(*e) > 0,
    ensures
        r matches Some(p) ==> unat(p) % 2 == 1 && unat(p) >= 3 && unat(p) % unat(*e) != 1,
{
    let one = u_from(1);
    let mut tries: usize = 0;
    while tries < 64
        invariant
            unat(one) == 1,
            unat(*e) > 0,
        decreases 64 - tries,
    {
        if let Some(p) = big_prime(size) {
            if !u_eq(&u_rem(&p, e), &one) {
                return Some(p);
            }
        }
        tries += 1;
    }
    None
}

/// The extended Euclidean algorithm: the gcd of `a` and `b` together with
/// Bézout coefficients `s`, `t` satisfying `a*s + b*t == gcd(a, b)`.
pub fn extended_gcd(a: &BigUint, b: &BigUint) -> (r: (BigInt, BigInt, BigInt))
    ensures
        sval(r.0) == gcd(unat(*a), unat(*b)),
        unat(*a) * sval(r.1) + unat(*b) * sval(r.2) == sval(r.0),
{
    let ghost a0: int = unat(*a) as int;
    let ghost b0: int = unat(*b) as int;
    let zero = i_from_u64(0);
    let mut s = i_from_u64(0);
    let mut old_s = i_from_u64(1);
    let mut t = i_from_u64(1);
    let mut old_t = i_from_u64(0);
    let mut r = i_from_u(b);
    let mut old_r = i_from_u(a);
    while !i_eq(&r, &zero)
        invariant
            sval(zero) == 0,
            a0 == unat(*a) as int,
            b0 == unat(*b) as int,
            sval(old_r) >= 0,
            sval(r) >= 0,
            a0 * sval(old_s) + b0 * sval(old_t) == sval(old_r),
            a0 * sval(s) + b0 * sval(t) == sval(r),
            gcd(sval(old_r) as nat, sval(r) as nat) == gcd(unat(*a), unat(*b)),
        decreases sval(r),
    {
        let ghost orv: int = sval(old_r);
        let ghost rv: int = sval(r);
        let ghost qv: int = orv / rv;
        let quotient = i_div(&old_r, &r);
        let new_r = i_sub(&old_r, &i_mul(&quotient, &r));
        let new_s = i_sub(&old_s, &i_mul(&quotient, &s));
        let new_t = i_sub(&old_t, &i_mul(&quotient, &t));
        proof {
            lemma_fundamental_div_mod(orv, rv);
            lemma_mod_bound(orv, rv);
            assert(sval(new_r) == orv % rv);
            assert(gcd(rv as nat, (orv % rv) as nat) == gcd(unat(*a), unat(*b)));
            assert(a0 * (sval(old_s) - qv * sval(s)) == a0 * sval(old_s) - qv * (a0 * sval(s)))
                by (nonlinear_arith);
            assert(b0 * (sval(old_t) - qv * sval(t)) == b0 * sval(old_t) - qv * (b0 * sval(t)))
                by (nonlinear_arith);
            assert(qv * (a0 * sval(s)) + qv * (b0 * sval(t)) == qv * (a0 * sval(s) + b0 * sval(t)))
                by (nonlinear_arith);
            assert(a0 * (sval(old_s) - qv * sval(s)) + b0 * (sval(old_t) - qv * sval(t))
                == orv - qv * rv);
        }
        old_r = r;
        r = new_r;
        old_s = s;
        s = new_s;
        old_t = t;
        t = new_t;
    }
    (old_r, old_s, old_t)
}

/// The multiplicative inverse of `a` modulo `n`: the unique `v` in
/// `[0, n)` with `a * v ≡ 1 (mod n)` when `a` and `n` are coprime, and
/// `None` when they are not.
pub fn invmod(a: &BigUint, n: &BigUint) -> (r: Option<BigUint>)
    requires
        unat(*n) >= 1,
    ensures
        r is Some <==> gcd(unat(*a), unat(*n)) == 1,
        r matches Some(v) ==> unat(v) < unat(*n)
            && (unat(*a) as int * unat(v) as int) % (unat(*n) as int)
                == 1int % (unat(*n) as int),
{
    let ghost a0: int = unat(*a) as int;
    let ghost n0: int = unat(*n) as int;
    let zero = i_from_u64(0);
    let one = i_from_u64(1);
    let mut t = i_from_u64(0);
    let mut new_t = i_from_u64(1);
    let mut r = i_from_u(n);
    let mut new_r = i_from_u(a);
    proof {
        lemma_mod_self_0(n0);
        lemma_small_mod(0, n0 as nat);
        assert(a0 * 0 == 0);
        assert(a0 * 1 == a0);
    }
    while !i_eq(&new_r, &zero)
        invariant
            sval(zero) == 0,
            a0 == unat(*a) as int,
            n0 == unat(*n) as int,
            n0 >= 1,
            sval(r) >= 0,
            sval(new_r) >= 0,
            (a0 * sval(t)) % n0 == sval(r) % n0,
            (a0 * sval(new_t)) % n0 == sval(new_r) % n0,
            gcd(sval(r) as nat, sval(new_r) as nat) == gcd(unat(*n), unat(*a)),
        decreases sval(new_r),
    {
        let ghost rv: int = sval(r);
        let ghost nrv: int = sval(new_r);
        let ghost tv: int = sval(t);
        let ghost ntv: int = sval(new_t);
        let ghost qv: int = rv / nrv;
        let quotient = i_div(&r, &new_r);
        let tmp_t = i_sub(&t, &i_mul(&quotient, &new_t));
        let tmp_r = i_sub(&r, &i_mul(&quotient, &new_r));
        proof {
            lemma_fundamental_div_mod(rv, nrv);
            lemma_mod_bound(rv, nrv);
            assert(sval(tmp_r) == rv % nrv);
            assert(gcd(nrv as nat, (rv % nrv) as nat) == gcd(unat(*n), unat(*a)));
            // a0 * (tv - qv*ntv) is congruent to rv - qv*nrv modulo n0
            assert(a0 * (tv - qv * ntv) == a0 * tv - qv * (a0 * ntv)) by (nonlinear_arith);
            lemma_sub_mod_noop(a0 * tv, qv * (a0 * ntv), n0);
            lemma_mul_mod_noop_right(qv, a0 * ntv, n0);
            lemma_mul_mod_noop_right(qv, nrv, n0);
            lemma_sub_mod_noop(rv, qv * nrv, n0);
        }
        t = new_t;
        new_t = tmp_t;
        r = new_r;
        new_r = tmp_r;
    }
    proof {
        lemma_gcd_sym(unat(*n), unat(*a));
        lemma_gcd_nonzero(unat(*n), unat(*a));
    }
    if i_lt(&one, &r) {
        return None;
    }
    // here the remainder is exactly one: the gcd of `a` and `n`
    let ghost tv: int = sval(t);
    let n_int = i_from_u(n);
    let mut reduced = i_rem(&t, &n_int);
    proof {
        if tv >= 0 {
            lemma_mod_bound(tv, n0);
            lemma_small_mod((tv % n0) as nat, n0 as nat);
        } else {
            lemma_fundamental_div_mod(-tv, n0);
            lemma_mod_bound(-tv, n0);
            if (-tv) % n0 == 0 {
                assert(tv == n0 * (-((-tv) / n0)) + 0) by (nonlinear_arith)
                    requires -tv == n0 * ((-tv) / n0) + (-tv) % n0 && (-tv) % n0 == 0;
                lemma_fundamental_div_mod_converse_mod(tv, n0, -((-tv) / n0), 0);
            } else {
                assert(tv == n0 * (-((-tv) / n0) - 1) + (n0 - (-tv) % n0)) by (nonlinear_arith)
                    requires -tv == n0 * ((-tv) / n0) + (-tv) % n0;
                lemma_fundamental_div_mod_converse_mod(
                    tv, n0, -((-tv) / n0) - 1, n0 - (-tv) % n0);
            }
        }
    }
    if i_lt(&reduced, &zero) {
        reduced = i_add(&reduced, &n_int);
    }
    proof {
        assert(0 <= sval(reduced) < n0);
        lemma_small_mod(sval(reduced) as nat, n0 as nat);
        assert(sval(reduced) % n0 == tv % n0);
        lemma_mul_mod_noop_right(a0, tv, n0);
        lemma_mul_mod_noop_right(a0, sval(reduced), n0);
    }
    Some(i_to_u(&reduced))
}

} // verus!
