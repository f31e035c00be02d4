//! RSA key material, held as big-endian byte integers.

use crate::bignum::{be_value, big_lt, one_bytes};
use crate::error::EcashError;
use rsa::traits::{PrivateKeyParts, PublicKeyParts};
use vstd::arithmetic::power::pow;
use vstd::prelude::*;

verus! {

/// `e` and `d` undo each other modulo `n`: raising any integer to `e * d`
/// leaves it unchanged modulo `n`. This is what makes RSA signatures check.
pub open spec fn rsa_exponents(n: nat, e: nat, d: nat) -> bool {
    &&& n > 1
    &&& forall|x: nat| #[trigger] pow(x as int, e * d) % (n as int) == (x as int) % (n as int)
}

/// An issuer's public key `(n, e)`.
#[derive(Debug, Clone)]
pub struct PublicKey {
    pub n: Vec<u8>,
    pub e: Vec<u8>,
}

impl PublicKey {
    /// The modulus as a number.
    pub open spec fn modulus(&self) -> nat {
        be_value(self.n@)
    }

    /// The public exponent as a number.
    pub open spec fn exponent(&self) -> nat {
        be_value(self.e@)
    }

    /// A modulus above one, so that arithmetic modulo it is defined.
    pub open spec fn wf(&self) -> bool {
        self.modulus() > 1
    }

    /// A public key from its modulus and exponent, refused unless the modulus
    /// exceeds one and the exponent is at least two.
    pub fn new(n: Vec<u8>, e: Vec<u8>) -> (r: Result<PublicKey, EcashError>)
        ensures
            r matches Ok(k) ==> k.n == n && k.e == e && k.wf(),
            r is Err <==> be_value(n@) <= 1 || be_value(e@) < 2,
            r matches Err(err) ==> err == EcashError::InvalidKey,
    {
        let one = one_bytes();
        if big_lt(&one, &n) && big_lt(&one, &e) {
            Ok(PublicKey { n, e })
        } else {
            Err(EcashError::InvalidKey)
        }
    }
}

/// An issuer's private key `(n, e, d)`.
#[derive(Debug, Clone)]
pub struct PrivateKey {
    pub n: Vec<u8>,
    pub e: Vec<u8>,
    pub d: Vec<u8>,
}

/// Relies on `rsa::RsaPrivateKey::new` with the thread-local generator: on
/// success a two-prime key whose modulus has exactly `bits` bits, whose public
/// exponent is 65537, and which passed the crate's own validation (distinct
/// primes whose product is `n`, `d * e` congruent to one modulo each prime
/// less one). The primes come from `num-bigint-dig`'s `gen_prime`, which
/// makes every candidate odd, so `n` is odd. From 64 bits on, generation
/// only returns once it has a key, so it never reports an error.
#[verifier::external_body]
fn rsa_generate(bits: usize) -> (r: Option<(Vec<u8>, Vec<u8>, Vec<u8>)>)
    ensures
        r matches Some((n, e, d)) ==> {
            &&& rsa_exponents(be_value(n@), be_value(e@), be_value(d@))
            &&& bits >= 1 && be_value(n@) >= pow(2, (bits - 1) as nat)
            &&& be_value(e@) == 65537
            &&& be_value(n@) % 2 == 1
        },
        bits >= 64 ==> r is Some,
{
    match rsa::RsaPrivateKey::new(&mut rand::thread_rng(), bits) {
        Ok(k) => Some((k.n().to_bytes_be(), k.e().to_bytes_be(), k.d().to_bytes_be())),
        Err(_) => None,
    }
}

impl PrivateKey {
    /// Exponents that undo each other modulo an odd `n`.
    pub open spec fn wf(&self) -> bool {
        &&& rsa_exponents(be_value(self.n@), be_value(self.e@), be_value(self.d@))
        &&& be_value(self.n@) % 2 == 1
    }

    /// The modulus as a number.
    pub open spec fn modulus(&self) -> nat {
        be_value(self.n@)
    }

    /// A fresh random key whose modulus has `bits` bits.
    pub fn generate(bits: usize) -> (r: Result<PrivateKey, EcashError>)
        ensures
            r matches Ok(k) ==> k.wf() && k.modulus() >= pow(2, (bits - 1) as nat) && bits >= 1,
            r matches Err(err) ==> err == EcashError::CryptoError,
            bits >= 64 ==> r is Ok,
    {
        match rsa_generate(bits) {
            Some((n, e, d)) => Ok(PrivateKey { n, e, d }),
            None => Err(EcashError::CryptoError),
        }
    }

    /// The public half `(n, e)`.
    pub fn to_public_key(&self) -> (r: PublicKey)
        requires
            self.wf(),
        ensures
            r.n@ == self.n@,
            r.e@ == self.e@,
            r.wf(),
    {
        PublicKey { n: self.n.clone(), e: self.e.clone() }
    }
}

} // verus!
