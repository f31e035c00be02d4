//! RSA blind signatures: the issuer's signer, and the holder's blinding,
//! unblinding and verification.

use crate::bignum::{
    be_value, byte_len_of, significant_len, lemma_32_bytes_below_2_256, big_eq, big_lt, big_mul, big_rem, gcd, gcd_spec, mod_inverse, modpow,
    one_bytes,
};
use crate::digest::{sha256, sha256_of};
use crate::entropy::random_bytes;
use crate::error::EcashError;
use crate::keys::{PrivateKey, PublicKey};
use vstd::arithmetic::div_mod::*;
use vstd::arithmetic::mul::*;
use vstd::arithmetic::power::*;
use vstd::prelude::*;

verus! {

/// How many random blinding factors are drawn before blinding gives up. A
/// draw is unusable only when it reduces to 0 or 1 or shares a factor with
/// the modulus, which for an RSA modulus almost never happens; the bound
/// exists so that blinding is sure to end.
pub const MAX_BLINDING_ATTEMPTS: u32 = 64;

/// `r` can blind modulo `n`: it lies in `[2, n - 1]` and is coprime to `n`.
pub open spec fn usable_factor(n: nat, r: nat) -> bool {
    1 < r < n && gcd_spec(r, n) == 1
}

/// The digest of `message`, read as a big-endian integer.
pub open spec fn digest_value(message: Seq<u8>) -> nat {
    be_value(sha256_of(message))
}

/// `inv` is an inverse of `a` modulo `n`.
pub open spec fn is_inverse(a: nat, inv: nat, n: nat) -> bool {
    n > 0 && (a * inv) % n == 1
}

/// `s` is the blind signature `blind_sig` with the blinding factor `r` taken
/// out: `blind_sig * r^-1 mod n`.
pub open spec fn unblinds(n: nat, blind_sig: nat, r: nat, s: nat) -> bool {
    exists|inv: nat| #[trigger] is_inverse(r, inv, n) && s == (blind_sig * inv) % n
}

/// `signature` raised to the public exponent gives back the digest of `message`.
pub open spec fn signature_valid(key: PublicKey, message: Seq<u8>, signature: nat) -> bool {
    pow(signature as int, key.exponent()) % (key.modulus() as int) == digest_value(message)
}

/// `blinded` is the 256-bit digest of `message` blinded by `r`:
/// `m * r^e mod n`, with `r` in `[2, n - 1]` and coprime to `n`.
pub open spec fn blinds(key: PublicKey, message: Seq<u8>, blinded: nat, r: nat) -> bool {
    &&& digest_value(message) < pow(2, 256)
    &&& 1 < r < key.modulus()
    &&& gcd_spec(r, key.modulus()) == 1
    &&& blinded == (digest_value(message) * pow(r as int, key.exponent())) % (key.modulus() as int)
}

/// The issuer's side: it raises blinded integers to its private exponent.
#[derive(Debug, Clone)]
pub struct BlindSigner {
    pub private_key: PrivateKey,
    pub public_key: PublicKey,
}

impl BlindSigner {
    /// A valid private key, and the public key that belongs to it.
    pub open spec fn wf(&self) -> bool {
        &&& self.private_key.wf()
        &&& self.public_key.n@ == self.private_key.n@
        &&& self.public_key.e@ == self.private_key.e@
    }

    /// A signer with a freshly generated key whose modulus has `bits` bits.
    pub fn new(bits: usize) -> (r: Result<BlindSigner, EcashError>)
        ensures
            r matches Ok(s) ==> s.wf() && s.private_key.modulus() >= pow(2, (bits - 1) as nat)
                && bits >= 1,
            r matches Err(err) ==> err == EcashError::CryptoError,
            bits >= 64 ==> r is Ok,
    {
        let private_key = PrivateKey::generate(bits)?;
        Ok(BlindSigner::from_keys(private_key))
    }

    /// A signer holding `private_key`.
    pub fn from_keys(private_key: PrivateKey) -> (r: BlindSigner)
        requires
            private_key.wf(),
        ensures
            r.wf(),
            r.private_key == private_key,
    {
        let public_key = private_key.to_public_key();
        BlindSigner { private_key, public_key }
    }

    /// The public half of the signing key.
    pub fn public_key(&self) -> (r: &PublicKey)
        ensures
            r == &self.public_key,
    {
        &self.public_key
    }

    /// `blinded^d mod n`: the signature on a blinded integer, still blinded.
    pub fn sign_blinded(&self, blinded_message: &[u8]) -> (r: Result<Vec<u8>, EcashError>)
        requires
            self.wf(),
        ensures
            r matches Ok(s) && be_value(s@) == pow(be_value(blinded_message@) as int, be_value(
                self.private_key.d@,
            )) % (self.private_key.modulus() as int),
    {
        Ok(modpow(blinded_message, &self.private_key.d, &self.private_key.n))
    }
}

/// The holder's side: blinds digests and unblinds what the issuer signed.
#[derive(Debug, Clone)]
pub struct BlindUser {
    pub public_key: PublicKey,
}

impl BlindUser {
    /// A holder working against `public_key`.
    pub fn new(public_key: PublicKey) -> (r: BlindUser)
        ensures
            r.public_key == public_key,
    {
        BlindUser { public_key }
    }

    /// Blinds the digest of `message` with the factor `draw mod n`, if that
    /// factor is usable: above one and coprime to `n`. Returns
    /// `(m * r^e mod n, r)`.
    pub fn blind_with_draw(&self, message: &[u8], draw: &[u8]) -> (r: Option<(Vec<u8>, Vec<u8>)>)
        requires
            self.public_key.wf(),
        ensures
            r is Some <==> usable_factor(self.public_key.modulus(), be_value(draw@) % self.public_key.modulus()),
            r matches Some((b, f)) ==> {
                &&& be_value(f@) == be_value(draw@) % self.public_key.modulus()
                &&& be_value(b@) == (digest_value(message@) * pow(be_value(f@) as int, self.public_key.exponent()))
                    % (self.public_key.modulus() as int)
                &&& blinds(self.public_key, message@, be_value(b@), be_value(f@))
            },
    {
        let n = &self.public_key.n;
        let e = &self.public_key.e;
        let ghost nv = be_value(n@) as int;
        let one = one_bytes();
        let candidate = big_rem(draw, n);
        if big_lt(&one, &candidate) && big_eq(&gcd(&candidate, n), &one) {
            let m = sha256(message);
            let r_e = modpow(&candidate, e, n);
            let blinded = big_rem(&big_mul(&m, &r_e), n);
            proof {
                lemma_32_bytes_below_2_256(m@);
                lemma_mod_bound(be_value(draw@) as int, nv);
                lemma_mul_mod_noop_right(
                    be_value(m@) as int,
                    pow(be_value(candidate@) as int, be_value(e@)),
                    nv,
                );
            }
            Some((blinded, candidate))
        } else {
            None
        }
    }

    /// Hashes `message` and blinds the digest with a random factor: each
    /// attempt draws `ceil(bitlen(n) / 8)` random bytes and hands them to
    /// `blind_with_draw`, which accepts the draw reduced modulo `n` when it
    /// lies in `[2, n - 1]` and is coprime to `n`. A usable factor is found
    /// on almost every draw; the number of attempts is bounded by
    /// `MAX_BLINDING_ATTEMPTS` only so that the function is sure to return,
    /// and running out of them gives `BlindingFailed`.
    pub fn blind_message(&self, message: &[u8]) -> (r: Result<(Vec<u8>, Vec<u8>), EcashError>)
        requires
            self.public_key.wf(),
        ensures
            r matches Ok((b, f)) ==> blinds(self.public_key, message@, be_value(b@), be_value(f@)),
            r matches Err(err) ==> err == EcashError::BlindingFailed,
    {
        let draw_len = significant_len(&self.public_key.n);
        let mut attempt: u32 = 0;
        while attempt < MAX_BLINDING_ATTEMPTS
            invariant
                self.public_key.wf(),
                draw_len == byte_len_of(self.public_key.modulus()),
            decreases MAX_BLINDING_ATTEMPTS - attempt,
        {
            let draw = random_bytes(draw_len);
            if let Some(pair) = self.blind_with_draw(message, &draw) {
                return Ok(pair);
            }
            attempt = attempt + 1;
        }
        Err(EcashError::BlindingFailed)
    }

    /// `blind_signature * r^-1 mod n`; fails with `BlindingFailed` when the
    /// blinding factor has no inverse modulo `n`.
    pub fn unblind_signature(&self, blind_signature: &[u8], blinding_factor: &[u8]) -> (r: Result<
        Vec<u8>,
        EcashError,
    >)
        requires
            self.public_key.wf(),
        ensures
            r is Ok <==> gcd_spec(be_value(blinding_factor@), self.public_key.modulus()) == 1,
            r matches Ok(s) ==> be_value(s@) < self.public_key.modulus() && unblinds(
                self.public_key.modulus(),
                be_value(blind_signature@),
                be_value(blinding_factor@),
                be_value(s@),
            ),
            r matches Err(err) ==> err == EcashError::BlindingFailed,
    {
        let n = &self.public_key.n;
        match mod_inverse(blinding_factor, n) {
            None => Err(EcashError::BlindingFailed),
            Some(r_inv) => {
                let s = big_rem(&big_mul(blind_signature, &r_inv), n);
                proof {
                    let nv = be_value(n@);
                    let inv = be_value(r_inv@);
                    lemma_small_mod(1, nv);
                    assert(is_inverse(be_value(blinding_factor@), inv, nv));
                }
                Ok(s)
            },
        }
    }

    /// Whether `signature^e mod n` equals the digest of `message`.
    pub fn verify_signature(&self, message: &[u8], signature: &[u8]) -> (r: bool)
        requires
            self.public_key.wf(),
        ensures
            r == signature_valid(self.public_key, message@, be_value(signature@)),
    {
        verify_with_key(&self.public_key, message, signature)
    }
}

/// Whether `signature^e mod n` under `key` equals the digest of `message`.
pub fn verify_with_key(key: &PublicKey, message: &[u8], signature: &[u8]) -> (r: bool)
    requires
        key.wf(),
    ensures
        r == signature_valid(*key, message@, be_value(signature@)),
{
    let m = sha256(message);
    let verified = modpow(signature, &key.e, &key.n);
    big_eq(&verified, &m)
}

/// A message has one signature below the modulus: any other value below
/// the modulus, such as a valid signature with some of its bits changed,
/// does not verify against the same message.
pub proof fn lemma_signature_unique(signer: BlindSigner, message: Seq<u8>, s1: nat, s2: nat)
    requires
        signer.wf(),
        s1 < signer.private_key.modulus(),
        s2 < signer.private_key.modulus(),
        signature_valid(signer.public_key, message, s1),
        signature_valid(signer.public_key, message, s2),
    ensures
        s1 == s2,
{
    let n = signer.private_key.modulus() as int;
    let e = signer.public_key.exponent();
    let d = be_value(signer.private_key.d@);
    lemma_mul_is_commutative(d as int, e as int);
    lemma_pow_multiplies(s1 as int, e, d);
    lemma_pow_multiplies(s2 as int, e, d);
    lemma_pow_mod_noop(pow(s1 as int, e), d, n);
    lemma_pow_mod_noop(pow(s2 as int, e), d, n);
    lemma_small_mod(s1, n as nat);
    lemma_small_mod(s2, n as nat);
    assert(pow(s1 as int, e * d) % n == (s1 as int) % n);
    assert(pow(s2 as int, e * d) % n == (s2 as int) % n);
}

/// Unblinding the issuer's signature on a blinded digest gives the plain
/// signature on the digest: `s == m^d mod n`.
pub proof fn lemma_unblinded_signature_value(
    signer: BlindSigner,
    message: Seq<u8>,
    blinded: nat,
    r: nat,
    blind_sig: nat,
    s: nat,
)
    requires
        signer.wf(),
        blinds(signer.public_key, message, blinded, r),
        blind_sig == pow(blinded as int, be_value(signer.private_key.d@)) % (
        signer.private_key.modulus() as int),
        unblinds(signer.private_key.modulus(), blind_sig, r, s),
    ensures
        s == pow(digest_value(message) as int, be_value(signer.private_key.d@)) % (
        signer.private_key.modulus() as int),
{
    let n = signer.private_key.modulus() as int;
    let e = signer.public_key.exponent();
    let d = be_value(signer.private_key.d@);
    let m = digest_value(message) as int;
    let inv: nat = choose|inv: nat| #[trigger] is_inverse(r, inv, n as nat) && s == (blind_sig * inv)
        % (n as nat);
    let re = pow(r as int, e);
    let a = pow(m, d);
    let x = pow(r as int, e * d);
    // s == (m * r^e)^d * inv (mod n)
    lemma_mul_mod_noop_left(pow(blinded as int, d), inv as int, n);
    lemma_pow_mod_noop(m * re, d, n);
    lemma_mul_mod_noop_left(pow(m * re, d), inv as int, n);
    assert(s as int == (pow(m * re, d) * inv) % n);
    // (m * r^e)^d == m^d * r^(e * d)
    lemma_pow_distributes(m, re, d);
    lemma_pow_multiplies(r as int, e, d);
    assert(pow(m * re, d) == a * x);
    // r^(e * d) * inv == r * inv == 1 (mod n)
    assert(x % n == (r as int) % n);
    lemma_mul_is_associative(a, x, inv as int);
    lemma_mul_mod_noop_right(a, x * inv, n);
    lemma_mul_mod_noop_left(x, inv as int, n);
    lemma_mul_mod_noop_left(r as int, inv as int, n);
    assert((x * inv) % n == 1);
    lemma_small_mod(1, n as nat);
    assert(a * 1 == a);
}

/// Blinding, signing and unblinding commute with signing directly: for a
/// modulus of at least 256 bits, the signature obtained by unblinding the
/// issuer's signature on the blinded digest verifies against `message`.
pub proof fn lemma_unblinded_signature_verifies(
    signer: BlindSigner,
    message: Seq<u8>,
    blinded: nat,
    r: nat,
    blind_sig: nat,
    s: nat,
)
    requires
        signer.wf(),
        signer.private_key.modulus() >= pow(2, 256),
        blinds(signer.public_key, message, blinded, r),
        blind_sig == pow(blinded as int, be_value(signer.private_key.d@)) % (
        signer.private_key.modulus() as int),
        unblinds(signer.private_key.modulus(), blind_sig, r, s),
    ensures
        signature_valid(signer.public_key, message, s),
        s == pow(digest_value(message) as int, be_value(signer.private_key.d@)) % (
        signer.private_key.modulus() as int),
{
    lemma_unblinded_signature_value(signer, message, blinded, r, blind_sig, s);
    let n = signer.private_key.modulus() as int;
    let e = signer.public_key.exponent();
    let d = be_value(signer.private_key.d@);
    let m = digest_value(message) as int;
    let inv: nat = choose|inv: nat| #[trigger] is_inverse(r, inv, n as nat) && s == (blind_sig * inv)
        % (n as nat);
    let b = blinded as int;
    let bs = blind_sig as int;
    // bs^e == b (mod n)
    lemma_pow_mod_noop(pow(b, d), e, n);
    lemma_pow_multiplies(b, d, e);
    lemma_mul_is_commutative(d as int, e as int);
    assert(pow(b, e * d) % n == b % n);
    lemma_small_mod(blinded, n as nat);
    assert(pow(bs, e) % n == b);
    // s^e == bs^e * inv^e (mod n)
    lemma_pow_mod_noop(bs * inv, e, n);
    lemma_pow_distributes(bs, inv as int, e);
    lemma_mul_mod_noop_left(pow(bs, e), pow(inv as int, e), n);
    assert(pow(s as int, e) % n == (b * pow(inv as int, e)) % n);
    // b * inv^e == m * (r * inv)^e == m (mod n)
    let re = pow(r as int, e);
    let ie = pow(inv as int, e);
    lemma_mul_mod_noop_left(m * re, ie, n);
    lemma_mul_is_associative(m, re, ie);
    lemma_pow_distributes(r as int, inv as int, e);
    lemma_mul_mod_noop_right(m, re * ie, n);
    lemma_pow_mod_noop((r * inv) as int, e, n);
    lemma1_pow(e);
    lemma_small_mod(1, n as nat);
    lemma_small_mod(m as nat, n as nat);
    assert((m * 1) == m);
}

} // verus!
