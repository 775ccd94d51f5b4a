use num_bigint::BigUint;
use rsa_core::{gen_keys, gen_keys_default, KeySizeT, PublicExponentT, RsaError};
use rsa_core::primes::{big_prime, extended_gcd, invmod, is_prime, mod_exp, rewrite, rsa_prime};

fn big(v: u64) -> BigUint {
    BigUint::from(v)
}

/// Reference modular exponentiation by repeated multiplication.
fn naive_mod_exp(base: u64, exponent: u64, modulus: u64) -> u64 {
    let mut r: u128 = 1 % modulus as u128;
    for _ in 0..exponent {
        r = (r * base as u128) % modulus as u128;
    }
    r as u64
}

const FIRST_100_PRIMES: [u64; 100] = [
    2, 3, 5, 7, 11, 13, 17, 19, 23, 29, 31, 37, 41, 43, 47, 53, 59, 61, 67, 71, 73, 79, 83, 89,
    97, 101, 103, 107, 109, 113, 127, 131, 137, 139, 149, 151, 157, 163, 167, 173, 179, 181, 191,
    193, 197, 199, 211, 223, 227, 229, 233, 239, 241, 251, 257, 263, 269, 271, 277, 281, 283, 293,
    307, 311, 313, 317, 331, 337, 347, 349, 353, 359, 367, 373, 379, 383, 389, 397, 401, 409, 419,
    421, 431, 433, 439, 443, 449, 457, 461, 463, 467, 479, 487, 491, 499, 503, 509, 521, 523, 541,
];

#[test]
fn first_hundred_primes_are_prime() {
    for p in FIRST_100_PRIMES.iter() {
        assert!(is_prime(&big(*p)), "{} should be prime", p);
    }
}

#[test]
fn small_composites_are_not_prime() {
    for c in [4u64, 9, 15, 91, 100, 221, 561, 541 * 523].iter() {
        assert!(!is_prime(&big(*c)), "{} should be composite", c);
    }
}

#[test]
fn large_known_prime_and_composite() {
    // the Mersenne primes 2^61 - 1 and 2^89 - 1
    let m61 = (BigUint::from(1u64) << 61) - BigUint::from(1u64);
    assert!(is_prime(&m61));
    let m89 = (BigUint::from(1u64) << 89) - BigUint::from(1u64);
    assert!(is_prime(&m89));
    // a product of two large primes is composite
    let composite = &m61 * &m89;
    assert!(!is_prime(&composite));
    // 2^67 - 1 is a well-known Mersenne composite: 193707721 * 761838257287
    let m67 = (BigUint::from(1u64) << 67) - BigUint::from(1u64);
    assert!(!is_prime(&m67));
}

#[test]
fn mod_exp_matches_reference() {
    let cases: [(u64, u64, u64); 8] = [
        (2, 10, 1000),
        (3, 0, 7),
        (0, 5, 13),
        (5, 3, 3),
        (7, 128, 101),
        (1234, 4321, 9973),
        (10, 1, 1),
        (99, 99, 100),
    ];
    for (b, e, m) in cases.iter() {
        let got = mod_exp(&big(*b), &big(*e), &big(*m));
        assert_eq!(got, big(naive_mod_exp(*b, *e, *m)), "{}^{} mod {}", b, e, m);
    }
}

#[test]
fn invmod_returns_inverse_for_coprime_pairs() {
    let cases: [(u64, u64); 6] = [(3, 7), (2, 9), (10, 17), (7, 40), (65537, 100000), (1, 2)];
    for (a, n) in cases.iter() {
        let r = invmod(&big(*a), &big(*n)).expect("inverse should exist");
        assert!(r < big(*n));
        assert_eq!((big(*a) * &r) % big(*n), big(1 % *n));
    }
}

#[test]
fn invmod_rejects_non_coprime_pairs() {
    let cases: [(u64, u64); 4] = [(2, 4), (6, 9), (10, 15), (0, 7)];
    for (a, n) in cases.iter() {
        assert_eq!(invmod(&big(*a), &big(*n)), None, "invmod({}, {})", a, n);
    }
}

#[test]
fn extended_gcd_of_240_and_46() {
    let (g, s, t) = extended_gcd(&big(240), &big(46));
    assert_eq!(g, num_bigint::BigInt::from(2));
    let identity = num_bigint::BigInt::from(240) * &s + num_bigint::BigInt::from(46) * &t;
    assert_eq!(identity, num_bigint::BigInt::from(2));
}

#[test]
fn rewrite_decomposes_28() {
    let (s, d) = rewrite(&big(28));
    assert_eq!(s, big(2));
    assert_eq!(d, big(7));
}

#[test]
fn rewrite_leaves_odd_numbers_alone() {
    let (s, d) = rewrite(&big(7));
    assert_eq!(s, big(0));
    assert_eq!(d, big(7));
}

#[test]
fn encrypt_decrypt_round_trip_hello() {
    let (public_key, private_key) =
        gen_keys(KeySizeT::KeySize(1024), PublicExponentT::Exponent(3)).expect("key generation");
    let ciphertext = public_key.encrypt("hello").expect("message fits");
    assert!(ciphertext.chars().all(|c| c.is_ascii_hexdigit()));
    let plaintext = private_key.decrypt(&ciphertext).expect("valid ciphertext");
    assert_eq!(plaintext, "hello");
}

#[test]
fn encrypt_decrypt_round_trip_various_messages() {
    let (public_key, private_key) = gen_keys_default().expect("key generation");
    let messages = ["a", "The quick brown fox jumps over the lazy dog", "0", "héllo wörld"];
    for m in messages.iter() {
        let (public_key, _) = gen_keys_default().expect("key generation");
        let ciphertext = public_key.encrypt(m).expect("message fits");
        let plaintext = private_key.decrypt(&ciphertext).expect("valid ciphertext");
        assert_eq!(&plaintext, m, "round trip of {:?}", m);
    }
    let long_message = "x".repeat(127);
    let ciphertext = public_key.encrypt(&long_message).expect("127 bytes fit");
    assert_eq!(private_key.decrypt(&ciphertext).unwrap(), long_message);
}

#[test]
fn encrypt_refuses_oversized_messages() {
    // 1024-bit key: messages of 128 bytes or more must be refused
    let (public_key, _) = gen_keys_default().expect("key generation");
    let at_limit = "y".repeat(128);
    assert_eq!(public_key.encrypt(&at_limit), Err(RsaError::MessageTooLong));
    let (public_key, _) = gen_keys_default().expect("key generation");
    let over_limit = "z".repeat(1000);
    assert_eq!(public_key.encrypt(&over_limit), Err(RsaError::MessageTooLong));
    let (public_key, _) = gen_keys_default().expect("key generation");
    assert!(public_key.encrypt(&"w".repeat(127)).is_ok());
}

#[test]
fn decrypt_rejects_malformed_input() {
    let (_, private_key) = gen_keys_default().expect("key generation");
    assert_eq!(private_key.decrypt(""), Err(RsaError::MalformedHex));
    assert_eq!(private_key.decrypt("xyz"), Err(RsaError::MalformedHex));
    assert_eq!(private_key.decrypt("12g4"), Err(RsaError::MalformedHex));
}

#[test]
fn decrypt_accepts_uppercase_hex() {
    let (public_key, private_key) = gen_keys_default().expect("key generation");
    let ciphertext = public_key.encrypt("case test").expect("message fits");
    let plaintext = private_key.decrypt(&ciphertext.to_uppercase()).expect("valid ciphertext");
    assert_eq!(plaintext, "case test");
}

#[test]
fn decrypt_rejects_bytes_that_are_not_text() {
    // d is odd, so the ciphertext n-1 decrypts to the bytes of n-1,
    // which do not form valid UTF-8 text; n is read back from the
    // public key's display rendering
    let (public_key, private_key) = gen_keys_default().expect("key generation");
    let display = public_key.to_display_string();
    let start = display.find("n=0x").unwrap() + 4;
    let end = display.rfind(", key_size").unwrap();
    let n = BigUint::parse_bytes(display[start..end].as_bytes(), 16).unwrap();
    let n_minus_1 = n - BigUint::from(1u64);
    let ciphertext: String =
        n_minus_1.to_bytes_be().iter().map(|b| format!("{:02x}", b)).collect();
    assert_eq!(private_key.decrypt(&ciphertext), Err(RsaError::InvalidUtf8));
}

#[test]
fn generated_primes_pass_the_test() {
    let p = big_prime(16).expect("a 16-bit prime should be found");
    assert!(p >= big(3));
    assert!(&p % big(2) == big(1));
    assert!(is_prime(&p));

    let e = big(3);
    let q = rsa_prime(16, &e).expect("an RSA prime should be found");
    assert!(is_prime(&q));
    assert!(&q % &e != big(1));
}

#[test]
fn key_display_strings_have_the_expected_shape() {
    let (public_key, private_key) = gen_keys_default().expect("key generation");
    let pk = public_key.to_display_string();
    assert!(pk.starts_with("e=0x03, n=0x"));
    assert!(pk.ends_with(", key_size=1024"));
    let sk = private_key.to_display_string();
    assert!(sk.starts_with("d=0x"));
    assert!(sk.contains(", n=0x"));
}
