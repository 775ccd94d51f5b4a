//! Mathematical model shared by the contracts: greatest common divisors,
//! primality, and the numeric value of digit strings and byte strings.
use vstd::prelude::*;
use vstd::arithmetic::div_mod::{
    lemma_small_mod, lemma_fundamental_div_mod, lemma_fundamental_div_mod_converse,
};

verus! {

/// Greatest common divisor, by the Euclidean recurrence.
pub open spec fn gcd(a: nat, b: nat) -> nat
    decreases b,
{
    if b == 0 {
        a
    } else {
        gcd(b, a % b)
    }
}

/// `p` has no divisor strictly between 1 and itself.
pub open spec fn spec_prime(p: nat) -> bool {
    p >= 2 && forall|k: nat| 2 <= k < p ==> #[trigger] (p % k) != 0
}

/// Value of a big-endian byte string.
pub open spec fn be_val(s: Seq<u8>) -> nat
    decreases s.len(),
{
    if s.len() == 0 {
        0
    } else {
        be_val(s.drop_last()) * 256 + s.last() as nat
    }
}

/// The shortest big-endian byte string of value `v`, except that zero is
/// written as one zero byte.
pub open spec fn be_bytes_of(v: nat) -> Seq<u8>
    decreases v,
{
    if v < 256 {
        seq![v as u8]
    } else {
        be_bytes_of(v / 256).push((v % 256) as u8)
    }
}

/// The gcd is zero only when both arguments are.
pub proof fn lemma_gcd_nonzero(a: nat, b: nat)
    requires
        a > 0 || b > 0,
    ensures
        gcd(a, b) > 0,
    decreases b,
{
    if b > 0 {
        lemma_gcd_nonzero(b, a % b);
    }
}

/// The gcd does not depend on the order of its arguments.
pub proof fn lemma_gcd_sym(a: nat, b: nat)
    ensures
        gcd(a, b) == gcd(b, a),
{
    if a == 0 && b == 0 {
    } else if b == 0 {
        assert(gcd(b, a) == gcd(a, b % a));
        lemma_small_mod(0, a);
        assert(gcd(a, 0nat) == a);
    } else if a == 0 {
        lemma_small_mod(0, b);
    } else if a < b {
        lemma_small_mod(a, b);
    } else if a == b {
        lemma_small_mod(0, a);
        assert(a % b == 0) by {
            assert(a % a == 0) by (nonlinear_arith)
                requires a > 0;
        }
    } else {
        lemma_small_mod(b, a);
    }
}

/// Every composite number has a prime divisor smaller than itself.
pub proof fn lemma_composite_has_prime_factor(c: nat)
    requires
        c >= 2,
        !spec_prime(c),
    ensures
        exists|p: nat| spec_prime(p) && 2 <= p < c && #[trigger] (c % p) == 0,
    decreases c,
{
    assert(exists|k: nat| 2 <= k < c && #[trigger] (c % k) == 0);
    let k = choose|k: nat| 2 <= k < c && #[trigger] (c % k) == 0;
    if spec_prime(k) {
    } else {
        lemma_composite_has_prime_factor(k);
        let p = choose|p: nat| spec_prime(p) && 2 <= p < k && #[trigger] (k % p) == 0;
        lemma_fundamental_div_mod(c as int, k as int);
        lemma_fundamental_div_mod(k as int, p as int);
        assert(c == ((k / p) * (c / k)) * p) by (nonlinear_arith)
            requires
                c == k * (c / k) + c % k,
                c % k == 0,
                k == p * (k / p) + k % p,
                k % p == 0;
        assert(((k / p) as int * (c / k) as int * (p as int)) % (p as int) == 0) by {
            vstd::arithmetic::div_mod::lemma_mod_multiples_basic(
                (k / p) as int * (c / k) as int, p as int);
        }
        assert(c % p == 0);
    }
}

/// Reading back the byte string of a value gives the value.
pub proof fn lemma_be_val_of_be_bytes_of(v: nat)
    ensures
        be_val(be_bytes_of(v)) == v,
    decreases v,
{
    if v < 256 {
        assert(be_bytes_of(v) =~= seq![v as u8]);
        assert(seq![v as u8].drop_last() =~= Seq::<u8>::empty());
        assert(be_val(Seq::<u8>::empty()) == 0);
        assert(seq![v as u8].last() == v as u8);
    } else {
        lemma_be_val_of_be_bytes_of(v / 256);
        let s = be_bytes_of(v / 256).push((v % 256) as u8);
        assert(s.drop_last() =~= be_bytes_of(v / 256));
        lemma_fundamental_div_mod(v as int, 256);
    }
}

/// A byte string whose first byte is not zero names a positive value.
pub proof fn lemma_be_val_pos(s: Seq<u8>)
    requires
        s.len() >= 1,
        s[0] != 0,
    ensures
        be_val(s) >= 1,
    decreases s.len(),
{
    if s.len() == 1 {
        assert(s.last() == s[0]);
    } else {
        let front = s.drop_last();
        assert(front[0] == s[0]);
        lemma_be_val_pos(front);
        assert(be_val(front) * 256 >= 256) by (nonlinear_arith)
            requires be_val(front) >= 1;
    }
}

/// A byte string with no leading zero (zero itself written as one zero
/// byte) is recovered from its value: minimal representations are unique.
pub proof fn lemma_be_bytes_of_be_val(s: Seq<u8>)
    requires
        s.len() >= 1,
        s.len() > 1 ==> s[0] != 0,
    ensures
        be_bytes_of(be_val(s)) == s,
    decreases s.len(),
{
    if s.len() == 1 {
        assert(s.drop_last() =~= Seq::<u8>::empty());
        assert(be_val(Seq::<u8>::empty()) == 0);
        assert(s.last() == s[0]);
        assert(be_val(s) == s[0] as nat);
        assert(be_bytes_of(be_val(s)) =~= s);
    } else {
        let front = s.drop_last();
        assert(front[0] == s[0]);
        lemma_be_bytes_of_be_val(front);
        lemma_be_val_pos(front);
        let f: int = be_val(front) as int;
        let v: int = be_val(s) as int;
        assert(v == f * 256 + s.last());
        assert(v >= 256) by (nonlinear_arith)
            requires f >= 1 && v == f * 256 + s.last() && s.last() >= 0;
        lemma_fundamental_div_mod_converse(v, 256, f, s.last() as int);
        assert(be_bytes_of(be_val(s)) =~= s);
    }
}

} // verus!
