//! RSA public-key cryptography built from first principles on an
//! arbitrary-precision integer substrate: modular exponentiation,
//! probabilistic primality testing, the extended Euclidean algorithm,
//! modular inverses, and key generation / encryption / decryption.
use vstd::prelude::*;
use vstd::arithmetic::power::pow;
use vstd::string::{StringSliceAdditionalSpecFns, StringExecFns};
use vstd::utf8::{valid_utf8, decode_utf8, encode_utf8, is_ascii_chars_encode_utf8, encode_utf8_valid_utf8, encode_utf8_decode_utf8};
use num_bigint::BigUint;

pub mod arith;
pub mod big;
pub mod encode;
pub mod primes;

use crate::arith::{gcd, be_val, be_bytes_of, lemma_be_val_of_be_bytes_of, lemma_be_bytes_of_be_val};
use crate::big::{unat, u_from, u_clone, u_sub, u_mul, u_from_bytes_be, u_to_bytes_be};
use crate::encode::{
    hex_of, hex_val, all_hex_digits, hex_encode, hex_parse, string_from_utf8,
    dec_str_of, dec_render, lemma_hex_of_parses,
};

verus! {

/// Requested modulus size in bits, either the 1024-bit default or an
/// explicit choice.
pub enum KeySizeT {
    DefaultKeySize,
    KeySize(usize),
}

/// Requested public exponent, either the default of three or an explicit
/// choice.
pub enum PublicExponentT {
    DefaultExponent,
    Exponent(usize),
}

/// How a key-generation or encryption request fails.
#[derive(Clone, Copy, Debug, PartialEq, Eq, Structural)]
pub enum RsaError {
    /// The public exponent has no inverse modulo the totient.
    NoInverse,
    /// The plaintext does not fit under the modulus size.
    MessageTooLong,
    /// A ciphertext string that is not hexadecimal.
    MalformedHex,
    /// Decrypted bytes that are not valid UTF-8 text.
    InvalidUtf8,
}

/// The key size a request names.
pub open spec fn chosen_key_size(k: KeySizeT) -> nat {
    match k {
        KeySizeT::KeySize(s) => s as nat,
        KeySizeT::DefaultKeySize => 1024,
    }
}

/// The public exponent a request names.
pub open spec fn chosen_exponent(e: PublicExponentT) -> nat {
    match e {
        PublicExponentT::Exponent(v) => v as nat,
        PublicExponentT::DefaultExponent => 3,
    }
}

/// The first fixed demonstration prime used by `gen_keys`.
pub open spec fn demo_p_val() -> nat {
    139994220046599870956477883091679933690050533958413494361175765878388009712904598731424186305339031206019565236997846660570761217646048284207677518721266680939831427068831637241977141961489794692430839032834024879488857316806532010854492726294105537204910807701759409438736850050909718880794247851826676100659nat
}

/// The second fixed demonstration prime used by `gen_keys`.
pub open spec fn demo_q_val() -> nat {
    20337389656960998294326592338925696049790959565505524757730559391668959560932144154442555453184409001656780058972239977264029595425232148897830766318496332557443315901939488057301965284632550878932705482850011409884552920307156809956275260034172790640432552099351997217171943939928463951900471047653412995743nat
}

/// The totient-like value `(p-1)*(q-1)` of the demonstration primes.
pub open spec fn demo_totient() -> nat {
    ((demo_p_val() - 1) * (demo_q_val() - 1)) as nat
}

/// Relies on `BigUint::parse_bytes` in base ten to read the first
/// demonstration prime; the digits of the literal spell `demo_p_val`.
#[verifier::external_body]
fn demo_prime_p() -> (r: BigUint)
    ensures
        unat(r) == demo_p_val(),
{
    BigUint::parse_bytes(
        b"139994220046599870956477883091679933690050533958413494361175765878388009712904598731424186305339031206019565236997846660570761217646048284207677518721266680939831427068831637241977141961489794692430839032834024879488857316806532010854492726294105537204910807701759409438736850050909718880794247851826676100659",
        10,
    ).unwrap()
}

/// Relies on `BigUint::parse_bytes` in base ten to read the second
/// demonstration prime; the digits of the literal spell `demo_q_val`.
#[verifier::external_body]
fn demo_prime_q() -> (r: BigUint)
    ensures
        unat(r) == demo_q_val(),
{
    BigUint::parse_bytes(
        b"20337389656960998294326592338925696049790959565505524757730559391668959560932144154442555453184409001656780058972239977264029595425232148897830766318496332557443315901939488057301965284632550878932705482850011409884552920307156809956275260034172790640432552099351997217171943939928463951900471047653412995743",
        10,
    ).unwrap()
}

/// RSA public key: exponent `e`, modulus `n`, and the bit size the pair
/// was generated for.
pub struct PublicKey {
    e: BigUint,
    n: BigUint,
    key_size: usize,
}

/// RSA private key: exponent `d` and modulus `n`.
pub struct PrivateKey {
    d: BigUint,
    n: BigUint,
}

impl PublicKey {
    /// The modulus is the product of two primes, so at least two.
    #[verifier::type_invariant]
    pub closed spec fn wf(self) -> bool {
        unat(self.n) >= 2
    }

    /// The public exponent.
    pub closed spec fn e_val(self) -> nat {
        unat(self.e)
    }

    /// The modulus.
    pub closed spec fn n_val(self) -> nat {
        unat(self.n)
    }

    /// The bit size the key pair was generated for.
    pub closed spec fn size(self) -> nat {
        self.key_size as nat
    }

    /// Raise a message value to the public exponent, modulo `n`.
    pub fn encrypt_biguint(&self, m: &BigUint) -> (c: BigUint)
        ensures
            unat(c) == pow(unat(*m) as int, self.e_val()) % (self.n_val() as int),
    {
        proof {
            use_type_invariant(self);
        }
        crate::primes::mod_exp(m, &self.e, &self.n)
    }

    /// Encrypt a text: refuse it when its byte length does not fit under
    /// the key size, else raise its big-endian value to `e` modulo `n`
    /// and render the result as lowercase hexadecimal.
    pub fn encrypt(self, m: &str) -> (r: Result<String, RsaError>)
        ensures
            r is Err <==> m.spec_bytes().len() >= self.size() / 8,
            r matches Err(e) ==> e == RsaError::MessageTooLong,
            r matches Ok(h) ==> h@ == hex_of(be_bytes_of(
                (pow(be_val(m.spec_bytes()) as int, self.e_val())
                    % (self.n_val() as int)) as nat,
            )),
    {
        let max_len = self.key_size / 8;
        let m_bytes = m.as_bytes();
        if m_bytes.len() >= max_len {
            return Err(RsaError::MessageTooLong);
        }
        let p = u_from_bytes_be(m_bytes);
        let c = self.encrypt_biguint(&p);
        let c_bytes = u_to_bytes_be(&c);
        Ok(hex_encode(&c_bytes))
    }
}

impl PrivateKey {
    /// The modulus is the product of two primes, so at least two.
    #[verifier::type_invariant]
    pub closed spec fn wf(self) -> bool {
        unat(self.n) >= 2
    }

    /// The private exponent.
    pub closed spec fn d_val(self) -> nat {
        unat(self.d)
    }

    /// The modulus.
    pub closed spec fn n_val(self) -> nat {
        unat(self.n)
    }

    /// Raise a ciphertext value to the private exponent, modulo `n`.
    pub fn decrypt_biguint(&self, c: &BigUint) -> (p: BigUint)
        ensures
            unat(p) == pow(unat(*c) as int, self.d_val()) % (self.n_val() as int),
    {
        proof {
            use_type_invariant(self);
        }
        crate::primes::mod_exp(c, &self.d, &self.n)
    }

    /// Decrypt a hexadecimal ciphertext: parse it, raise its value to
    /// `d` modulo `n`, and read the resulting bytes back as UTF-8 text.
    pub fn decrypt(&self, m: &str) -> (r: Result<String, RsaError>)
        ensures
            !(m.spec_bytes().len() >= 1 && all_hex_digits(m.spec_bytes()))
                <==> r == Err::<String, RsaError>(RsaError::MalformedHex),
            (m.spec_bytes().len() >= 1 && all_hex_digits(m.spec_bytes())) ==> {
                let plain = be_bytes_of(
                    (pow(hex_val(m.spec_bytes()) as int, self.d_val())
                        % (self.n_val() as int)) as nat,
                );
                &&& (valid_utf8(plain) ==> (r matches Ok(s) && s@ == decode_utf8(plain)))
                &&& (!valid_utf8(plain) ==> r == Err::<String, RsaError>(RsaError::InvalidUtf8))
            },
    {
        let c = match hex_parse(m) {
            Some(c) => c,
            None => {
                return Err(RsaError::MalformedHex);
            },
        };
        let p = self.decrypt_biguint(&c);
        let p_bytes = u_to_bytes_be(&p);
        match string_from_utf8(p_bytes) {
            Some(s) => Ok(s),
            None => Err(RsaError::InvalidUtf8),
        }
    }
}

impl PublicKey {
    /// The rendering `e=0x<hex>, n=0x<hex>, key_size=<bits>` that the
    /// surrounding command line prints.
    pub fn to_display_string(&self) -> (r: String)
        ensures
            r@ == "e=0x"@ + hex_of(be_bytes_of(self.e_val()))
                + ", n=0x"@ + hex_of(be_bytes_of(self.n_val()))
                + ", key_size="@ + dec_str_of(self.size()),
    {
        let mut out = String::from_str("e=0x");
        out.append(hex_encode(&u_to_bytes_be(&self.e)).as_str());
        out.append(", n=0x");
        out.append(hex_encode(&u_to_bytes_be(&self.n)).as_str());
        out.append(", key_size=");
        out.append(dec_render(self.key_size).as_str());
        out
    }
}

impl PrivateKey {
    /// The rendering `d=0x<hex>, n=0x<hex>` that the surrounding command
    /// line prints.
    pub fn to_display_string(&self) -> (r: String)
        ensures
            r@ == "d=0x"@ + hex_of(be_bytes_of(self.d_val()))
                + ", n=0x"@ + hex_of(be_bytes_of(self.n_val())),
    {
        let mut out = String::from_str("d=0x");
        out.append(hex_encode(&u_to_bytes_be(&self.d)).as_str());
        out.append(", n=0x");
        out.append(hex_encode(&u_to_bytes_be(&self.n)).as_str());
        out
    }
}

/// Generate an RSA key pair with the default 1024-bit size and exponent
/// three.
pub fn gen_keys_default() -> (r: Result<(PublicKey, PrivateKey), RsaError>)
    ensures
        r matches Ok(kp) ==> {
            &&& kp.0.size() == 1024
            &&& kp.0.e_val() == 3
            &&& kp.0.n_val() == demo_p_val() * demo_q_val()
            &&& kp.1.n_val() == kp.0.n_val()
            &&& kp.1.d_val() < demo_totient()
            &&& (3 * kp.1.d_val()) % demo_totient() == 1nat % demo_totient()
        },
        r is Err <==> gcd(3, demo_totient()) != 1,
        r matches Err(e) ==> e == RsaError::NoInverse,
{
    gen_keys(KeySizeT::DefaultKeySize, PublicExponentT::DefaultExponent)
}

/// Generate an RSA key pair over the two fixed demonstration primes:
/// `n = p*q`, the requested public exponent `e`, and `d` its inverse
/// modulo `(p-1)*(q-1)`; fails when that inverse does not exist.
pub fn gen_keys(key_size: KeySizeT, e: PublicExponentT) -> (r: Result<(PublicKey, PrivateKey), RsaError>)
    ensures
        r matches Ok(kp) ==> {
            &&& kp.0.size() == chosen_key_size(key_size)
            &&& kp.0.e_val() == chosen_exponent(e)
            &&& kp.0.n_val() == demo_p_val() * demo_q_val()
            &&& kp.1.n_val() == kp.0.n_val()
            &&& kp.1.d_val() < demo_totient()
            &&& (chosen_exponent(e) * kp.1.d_val()) % demo_totient()
                == 1nat % demo_totient()
        },
        r is Err <==> gcd(chosen_exponent(e), demo_totient()) != 1,
        r matches Err(err) ==> err == RsaError::NoInverse,
{
    let key_size: usize = match key_size {
        KeySizeT::KeySize(s) => s,
        KeySizeT::DefaultKeySize => 1024,
    };
    let e_choice: usize = match e {
        PublicExponentT::Exponent(v) => v,
        PublicExponentT::DefaultExponent => 3,
    };
    let e_big = u_from(e_choice as u64);
    let p = demo_prime_p();
    let q = demo_prime_q();
    let one = u_from(1);
    let n = u_mul(&p, &q);
    let et = u_mul(&u_sub(&p, &one), &u_sub(&q, &one));
    proof {
        assert(demo_p_val() >= 2 && demo_q_val() >= 2);
        assert(unat(et) >= 1 && unat(n) >= 2) by (nonlinear_arith)
            requires
                unat(et) == (demo_p_val() - 1) * (demo_q_val() - 1),
                unat(n) == demo_p_val() * demo_q_val(),
                demo_p_val() >= 2,
                demo_q_val() >= 2;
    }
    let d = match crate::primes::invmod(&e_big, &et) {
        Some(d) => d,
        None => {
            return Err(RsaError::NoInverse);
        },
    };
    let public_key = PublicKey { e: e_big, n: u_clone(&n), key_size };
    let private_key = PrivateKey { d, n };
    Ok((public_key, private_key))
}

/// Round-trip law for the encoding pipeline: whenever raising the value
/// of a message to `e` and then to `d` modulo `n` gives the value back
/// (as Euler's theorem grants for a correctly built key pair and a
/// message below the modulus), the hexadecimal ciphertext that `encrypt`
/// promises parses back, and the bytes that `decrypt` promises are
/// exactly the UTF-8 encoding of the message, so `decrypt` returns it.
/// The message must not be empty and must not begin with a NUL byte,
/// which the big-endian value reading cannot keep.
pub proof fn lemma_encrypt_decrypt_consistent(m: Seq<char>, e: nat, d: nat, n: nat)
    requires
        n >= 2,
        encode_utf8(m).len() >= 1,
        encode_utf8(m)[0] != 0,
        pow(pow(be_val(encode_utf8(m)) as int, e) % (n as int), d) % (n as int)
            == be_val(encode_utf8(m)) as int,
    ensures
        ({
            let cipher = hex_of(be_bytes_of(
                (pow(be_val(encode_utf8(m)) as int, e) % (n as int)) as nat,
            ));
            let cb = encode_utf8(cipher);
            &&& cb.len() >= 1
            &&& all_hex_digits(cb)
            &&& valid_utf8(be_bytes_of((pow(hex_val(cb) as int, d) % (n as int)) as nat))
            &&& decode_utf8(be_bytes_of((pow(hex_val(cb) as int, d) % (n as int)) as nat))
                == m
        }),
{
    let mv = be_val(encode_utf8(m));
    let cv = (pow(mv as int, e) % (n as int)) as nat;
    let cbytes = be_bytes_of(cv);
    let cipher = hex_of(cbytes);
    lemma_hex_of_parses(cbytes);
    is_ascii_chars_encode_utf8(cipher);
    let cb = encode_utf8(cipher);
    assert(cb =~= cipher.map_values(|c: char| c as u8));
    lemma_be_val_of_be_bytes_of(cv);
    assert(hex_val(cb) == cv);
    assert((pow(hex_val(cb) as int, d) % (n as int)) as nat == mv);
    lemma_be_bytes_of_be_val(encode_utf8(m));
    encode_utf8_valid_utf8(m);
    encode_utf8_decode_utf8(m);
}

} // verus!
