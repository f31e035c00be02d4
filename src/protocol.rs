//! The issuer and wallet protocol engines.

use crate::bignum::{be_value, gcd_spec, lemma_be_value_update, lemma_odd_modulus_misses_byte_change};
use crate::clock::now_unix;
use crate::crypto::{
    blinds, digest_value, is_inverse, lemma_unblinded_signature_verifies, signature_valid,
    unblinds, verify_with_key, BlindSigner, BlindUser,
};
use crate::entropy::random_bytes;
use crate::error::EcashError;
use crate::keys::{PrivateKey, PublicKey};
use crate::token::{
    canonical_message, lemma_canonical_tuple_injective, BlindSignature, BlindedToken, Token,
    TokenMetadata,
};
use vstd::arithmetic::div_mod::*;
use vstd::arithmetic::mul::*;
use vstd::arithmetic::power::{lemma_pow_mod_noop, lemma_pow_multiplies, pow};
use vstd::prelude::*;
use vstd::slice::slice_to_vec;

verus! {

/// Seconds in a day.
pub const SECONDS_PER_DAY: i64 = 86400;

/// The longest validity, in days, that a token may be given.
pub const MAX_EXPIRY_DAYS: i64 = 106751991167;

/// Length of a token's serial number, in bytes.
pub const SERIAL_LEN: usize = 32;

/// `now + validity`, held to the range of `i64`.
pub open spec fn expiry_after(now: i64, validity: i64) -> i64 {
    if now + validity > i64::MAX {
        i64::MAX
    } else if now + validity < i64::MIN {
        i64::MIN
    } else {
        (now + validity) as i64
    }
}

/// Number of tokens a withdrawal of `amount` in tokens of `denomination`
/// mints: `ceil(amount / denomination)`, rounding up so that the last token
/// may carry change.
pub open spec fn token_count(amount: u64, denomination: u64) -> nat
    recommends
        denomination > 0,
{
    if amount % denomination == 0 {
        (amount / denomination) as nat
    } else {
        (amount / denomination + 1) as nat
    }
}

/// `ceil(amount / denomination)`.
pub fn count_for(amount: u64, denomination: u64) -> (r: u64)
    requires
        denomination > 0,
    ensures
        r == token_count(amount, denomination),
{
    if amount % denomination == 0 {
        amount / denomination
    } else {
        proof {
            assert(denomination != 1);
            lemma_small_mod(0, denomination as nat);
            assert(amount > 0);
            lemma_div_decreases(amount as int, denomination as int);
        }
        amount / denomination + 1
    }
}

/// The issuer: holds the private key, the accepted denominations and the
/// validity given to new tokens.
#[derive(Debug, Clone)]
pub struct Institution {
    pub signer: BlindSigner,
    pub institution_id: String,
    pub key_id: String,
    pub denominations: Vec<u64>,
    pub validity_seconds: i64,
}

/// What verifying `token` at time `now` gives: `false` once expired, an
/// `InvalidDenomination` error for a face value outside the set, and
/// otherwise whether the signature checks against the token's own fields.
pub open spec fn token_verdict(inst: Institution, token: Token, now: i64) -> Result<bool, EcashError> {
    if token.expired_at(now) {
        Ok(false)
    } else if !inst.denominations@.contains(token.denomination) {
        Err(EcashError::InvalidDenomination)
    } else {
        Ok(signature_valid(inst.signer.public_key, token.message(), be_value(token.signature@)))
    }
}

impl Institution {
    /// A valid key, and positive face values only.
    pub open spec fn wf(&self) -> bool {
        &&& self.signer.wf()
        &&& forall|i: int| 0 <= i < self.denominations@.len() ==> #[trigger] self.denominations@[i] > 0
    }

    /// The private exponent as a number.
    pub open spec fn private_exponent(&self) -> nat {
        be_value(self.signer.private_key.d@)
    }

    /// The modulus as a number.
    pub open spec fn modulus(&self) -> nat {
        self.signer.private_key.modulus()
    }

    /// An issuer signing with `private_key`, accepting `denominations`, whose
    /// tokens stay valid for `default_expiry_days` days.
    pub fn new(
        private_key: PrivateKey,
        institution_id: String,
        key_id: String,
        denominations: Vec<u64>,
        default_expiry_days: i64,
    ) -> (r: Institution)
        requires
            private_key.wf(),
            forall|i: int| 0 <= i < denominations@.len() ==> #[trigger] denominations@[i] > 0,
            -MAX_EXPIRY_DAYS <= default_expiry_days <= MAX_EXPIRY_DAYS,
        ensures
            r.wf(),
            r.signer.private_key == private_key,
            r.institution_id == institution_id,
            r.key_id == key_id,
            r.denominations == denominations,
            r.validity_seconds == default_expiry_days * SECONDS_PER_DAY,
    {
        Institution {
            signer: BlindSigner::from_keys(private_key),
            institution_id,
            key_id,
            denominations,
            validity_seconds: default_expiry_days * SECONDS_PER_DAY,
        }
    }

    pub fn institution_id(&self) -> (r: &str)
        ensures
            r@ == self.institution_id@,
    {
        self.institution_id.as_str()
    }

    pub fn public_key(&self) -> (r: &PublicKey)
        ensures
            r == &self.signer.public_key,
    {
        self.signer.public_key()
    }

    /// Whether `denomination` is one this issuer accepts.
    pub fn is_valid_denomination(&self, denomination: u64) -> (r: bool)
        ensures
            r == self.denominations@.contains(denomination),
    {
        let mut i: usize = 0;
        while i < self.denominations.len()
            invariant
                i <= self.denominations@.len(),
                forall|j: int| 0 <= j < i ==> self.denominations@[j] != denomination,
            decreases self.denominations@.len() - i,
        {
            if self.denominations[i] == denomination {
                return true;
            }
            i = i + 1;
        }
        false
    }

    /// `Ok` when the issuer accepts `denomination`, else `InvalidDenomination`.
    pub fn validate_denomination(&self, denomination: u64) -> (r: Result<(), EcashError>)
        ensures
            r is Ok <==> self.denominations@.contains(denomination),
            r matches Err(err) ==> err == EcashError::InvalidDenomination,
    {
        if self.is_valid_denomination(denomination) {
            Ok(())
        } else {
            Err(EcashError::InvalidDenomination)
        }
    }

    /// Signs a blinded token of an accepted denomination: `blinded^d mod n`,
    /// with this issuer's key id.
    pub fn sign_blinded_token(&self, blinded: &BlindedToken) -> (r: Result<BlindSignature, EcashError>)
        requires
            self.wf(),
        ensures
            r is Ok <==> self.denominations@.contains(blinded.denomination),
            r matches Err(err) ==> err == EcashError::InvalidDenomination,
            r matches Ok(sig) ==> sig.key_id@ == self.key_id@ && be_value(sig.signature@) == pow(
                be_value(blinded.blinded_message@) as int,
                self.private_exponent(),
            ) % (self.modulus() as int),
    {
        self.validate_denomination(blinded.denomination)?;
        let signature = self.signer.sign_blinded(&blinded.blinded_message)?;
        Ok(BlindSignature { signature, key_id: self.key_id.clone() })
    }

    /// Verifies `token` as of time `now`; see `token_verdict`.
    pub fn verify_token_at(&self, token: &Token, now: i64) -> (r: Result<bool, EcashError>)
        requires
            self.wf(),
        ensures
            r == token_verdict(*self, *token, now),
    {
        if token.is_expired_at(now) {
            return Ok(false);
        }
        self.validate_denomination(token.denomination)?;
        let message = canonical_message(
            &token.serial_number,
            token.denomination,
            token.currency.as_str(),
            token.issued_at,
        );
        Ok(verify_with_key(&self.signer.public_key, &message, &token.signature))
    }

    /// Verifies `token` as of the clock's time: the result is
    /// `token_verdict` at some time, so `true` only for a valid signature on
    /// an accepted denomination.
    pub fn verify_token(&self, token: &Token) -> (r: Result<bool, EcashError>)
        requires
            self.wf(),
        ensures
            r matches Ok(true) ==> self.denominations@.contains(token.denomination)
                && signature_valid(self.signer.public_key, token.message(), be_value(token.signature@)),
            r matches Err(err) ==> err == EcashError::InvalidDenomination
                && !self.denominations@.contains(token.denomination),
    {
        self.verify_token_at(token, now_unix())
    }

    /// The expiry of tokens issued at `now`.
    pub fn expiry_time_at(&self, now: i64) -> (r: i64)
        ensures
            r == expiry_after(now, self.validity_seconds),
    {
        match now.checked_add(self.validity_seconds) {
            Some(t) => t,
            None => if self.validity_seconds > 0 {
                i64::MAX
            } else {
                i64::MIN
            },
        }
    }

    /// The expiry of tokens issued now.
    pub fn expiry_time(&self) -> (r: i64) {
        self.expiry_time_at(now_unix())
    }
}


/// Tampering with a verified token's serial number (at the same length),
/// denomination, currency or issue time, while keeping its signature, goes
/// unnoticed only through a collision of the digest: if the tampered token
/// still verifies, its canonical bytes differ from the genuine token's while
/// their digests have equal value.
pub proof fn lemma_tampering_needs_collision(inst: Institution, genuine: Token, tampered: Token, now: i64)
    requires
        inst.wf(),
        token_verdict(inst, genuine, now) == Ok::<bool, EcashError>(true),
        token_verdict(inst, tampered, now) == Ok::<bool, EcashError>(true),
        be_value(genuine.signature@) == be_value(tampered.signature@),
        genuine.serial_number@.len() == tampered.serial_number@.len(),
        genuine.serial_number@ != tampered.serial_number@ || genuine.denomination
            != tampered.denomination || genuine.currency@ != tampered.currency@ || genuine.issued_at
            != tampered.issued_at,
    ensures
        genuine.message() != tampered.message(),
        digest_value(genuine.message()) == digest_value(tampered.message()),
{
    if genuine.message() == tampered.message() {
        lemma_canonical_tuple_injective(
            genuine.serial_number@,
            genuine.denomination,
            genuine.currency@,
            genuine.issued_at,
            tampered.serial_number@,
            tampered.denomination,
            tampered.currency@,
            tampered.issued_at,
        );
    }
}

/// Changing one byte of a verified token's signature, all else kept, makes
/// the token fail verification (for a modulus above 255, as every real key
/// has): an odd modulus cannot divide the change in value.
pub proof fn lemma_flipped_signature_fails(
    inst: Institution,
    genuine: Token,
    tampered: Token,
    now: i64,
    k: int,
    b: u8,
)
    requires
        inst.wf(),
        inst.modulus() > 255,
        token_verdict(inst, genuine, now) == Ok::<bool, EcashError>(true),
        tampered.serial_number@ == genuine.serial_number@,
        tampered.denomination == genuine.denomination,
        tampered.currency@ == genuine.currency@,
        tampered.issued_at == genuine.issued_at,
        tampered.expires_at == genuine.expires_at,
        0 <= k < genuine.signature@.len(),
        b != genuine.signature@[k],
        tampered.signature@ == genuine.signature@.update(k, b),
    ensures
        token_verdict(inst, tampered, now) == Ok::<bool, EcashError>(false),
{
    let key = inst.signer.public_key;
    let n = inst.modulus() as int;
    let e = key.exponent();
    let d = inst.private_exponent();
    let msg = genuine.message();
    assert(tampered.message() == msg);
    let s1 = be_value(genuine.signature@) as int;
    let s2 = be_value(tampered.signature@) as int;
    if signature_valid(key, msg, s2 as nat) {
        lemma_mul_is_commutative(e as int, d as int);
        lemma_pow_multiplies(s1, e, d);
        lemma_pow_multiplies(s2, e, d);
        lemma_pow_mod_noop(pow(s1, e), d, n);
        lemma_pow_mod_noop(pow(s2, e), d, n);
        assert(pow(s1, e * d) % n == s1 % n);
        assert(pow(s2, e * d) % n == s2 % n);
        assert(s1 % n == s2 % n);
        lemma_mod_equivalence(s2, s1, n);
        lemma_be_value_update(genuine.signature@, k, b);
        let c = b as int - genuine.signature@[k] as int;
        lemma_odd_modulus_misses_byte_change(n, c, (genuine.signature@.len() - 1 - k) as nat);
    }
}

/// Two results of unblinding the same blind signature by the same factor agree.
proof fn lemma_unblind_unique(n: nat, blind_sig: nat, r: nat, s1: nat, s2: nat)
    requires
        unblinds(n, blind_sig, r, s1),
        unblinds(n, blind_sig, r, s2),
    ensures
        s1 == s2,
{
    let inv1 = choose|inv: nat| #[trigger] is_inverse(r, inv, n) && s1 == (blind_sig * inv) % n;
    let inv2 = choose|inv: nat| #[trigger] is_inverse(r, inv, n) && s2 == (blind_sig * inv) % n;
    let ni = n as int;
    let (a, b, rr, bs) = (inv1 as int, inv2 as int, r as int, blind_sig as int);
    lemma_mul_mod_noop_right(a, rr * b, ni);
    lemma_mul_is_associative(a, rr, b);
    lemma_mul_is_commutative(a, rr);
    lemma_mul_mod_noop_left(a * rr, b, ni);
    assert(a % ni == b % ni);
    lemma_mul_mod_noop_right(bs, a, ni);
    lemma_mul_mod_noop_right(bs, b, ni);
}

/// The blind signature `bs` for `meta` unblinds into a signature that
/// verifies: the factor is invertible modulo `n` and every unblinding of
/// `bs` by it is a valid signature on the metadata's canonical bytes.
pub open spec fn finalize_ok(key: PublicKey, bs: BlindSignature, meta: TokenMetadata) -> bool {
    &&& gcd_spec(be_value(meta.blinding_factor@), key.modulus()) == 1
    &&& forall|s: nat|
        #![trigger unblinds(key.modulus(), be_value(bs.signature@), be_value(meta.blinding_factor@), s)]
        unblinds(key.modulus(), be_value(bs.signature@), be_value(meta.blinding_factor@), s)
            ==> signature_valid(key, meta.message(), s)
}

/// Pair `i` is the first whose blind signature does not finalize.
pub open spec fn first_failure(key: PublicKey, bss: Seq<BlindSignature>, metas: Seq<TokenMetadata>, i: int) -> bool {
    &&& 0 <= i < metas.len()
    &&& !finalize_ok(key, bss[i], metas[i])
    &&& forall|j: int| 0 <= j < i ==> #[trigger] finalize_ok(key, bss[j], metas[j])
}

/// The error a pair that does not finalize gives: `BlindingFailed` when its
/// factor has no inverse modulo `n`, else `InvalidSignature`.
pub open spec fn failure_kind(key: PublicKey, meta: TokenMetadata) -> EcashError {
    if gcd_spec(be_value(meta.blinding_factor@), key.modulus()) != 1 {
        EcashError::BlindingFailed
    } else {
        EcashError::InvalidSignature
    }
}

/// The wallet's protocol engine, working against one issuer's public key.
#[derive(Debug, Clone)]
pub struct Wallet {
    pub user: BlindUser,
    pub institution_id: String,
    pub currency: String,
    /// The denominations the issuer advertises.
    pub denominations: Vec<u64>,
}

impl Wallet {
    pub open spec fn wf(&self) -> bool {
        self.user.public_key.wf()
    }

    /// The wallet asks for tokens of `denomination`: positive, and one the
    /// issuer advertises.
    pub open spec fn accepts(&self, denomination: u64) -> bool {
        denomination > 0 && self.denominations@.contains(denomination)
    }

    /// `bt` and `meta` are one slot of a withdrawal of `denomination`: a fresh
    /// 32-byte serial, and the digest of the metadata's canonical bytes
    /// blinded by the metadata's factor.
    pub open spec fn prepared(&self, denomination: u64, bt: BlindedToken, meta: TokenMetadata) -> bool {
        &&& bt.denomination == denomination
        &&& meta.denomination == denomination
        &&& bt.currency@ == self.currency@
        &&& meta.currency@ == self.currency@
        &&& meta.serial_number@.len() == SERIAL_LEN
        &&& blinds(
            self.user.public_key,
            meta.message(),
            be_value(bt.blinded_message@),
            be_value(meta.blinding_factor@),
        )
    }

    /// `token` is what finalizing `meta` with the blind signature `bs` gives:
    /// the metadata's fields, the issuer's key id, and the unblinded signature.
    pub open spec fn finalized(&self, bs: BlindSignature, meta: TokenMetadata, expires_at: i64, token: Token) -> bool {
        &&& token.serial_number@ == meta.serial_number@
        &&& token.denomination == meta.denomination
        &&& token.currency@ == meta.currency@
        &&& token.issued_at == meta.issued_at
        &&& token.expires_at == expires_at
        &&& token.institution_id@ == self.institution_id@
        &&& token.key_id@ == bs.key_id@
        &&& unblinds(
            self.user.public_key.modulus(),
            be_value(bs.signature@),
            be_value(meta.blinding_factor@),
            be_value(token.signature@),
        )
        &&& signature_valid(self.user.public_key, token.message(), be_value(token.signature@))
    }

    /// A wallet for the issuer with `public_key`, minting in `currency`,
    /// among the `denominations` that the issuer advertises.
    pub fn new(public_key: PublicKey, institution_id: String, currency: String, denominations: Vec<u64>) -> (r: Wallet)
        ensures
            r.user.public_key == public_key,
            r.institution_id == institution_id,
            r.currency == currency,
            r.denominations == denominations,
    {
        Wallet { user: BlindUser::new(public_key), institution_id, currency, denominations }
    }

    /// A fresh random serial number.
    fn generate_serial() -> (r: Vec<u8>)
        ensures
            r@.len() == SERIAL_LEN,
    {
        random_bytes(SERIAL_LEN)
    }

    fn accepts_denomination(&self, denomination: u64) -> (r: bool)
        ensures
            r == self.accepts(denomination),
    {
        if denomination == 0 {
            return false;
        }
        let mut i: usize = 0;
        while i < self.denominations.len()
            invariant
                denomination > 0,
                i <= self.denominations@.len(),
                forall|j: int| 0 <= j < i ==> self.denominations@[j] != denomination,
            decreases self.denominations@.len() - i,
        {
            if self.denominations[i] == denomination {
                assert(self.denominations@[i as int] == denomination);
                return true;
            }
            i = i + 1;
        }
        false
    }

    /// Blinds `ceil(amount / denomination)` fresh tokens of `denomination`,
    /// each with its metadata, stamped with the time it was minted.
    pub fn prepare_withdrawal(&self, amount: u64, denomination: u64) -> (r: Result<
        Vec<(BlindedToken, TokenMetadata)>,
        EcashError,
    >)
        requires
            self.wf(),
        ensures
            !self.accepts(denomination) <==> r == Err::<Vec<(BlindedToken, TokenMetadata)>, EcashError>(
                EcashError::InvalidDenomination,
            ),
            r matches Err(err) ==> err == EcashError::InvalidDenomination || err
                == EcashError::BlindingFailed,
            r matches Ok(v) ==> v@.len() == token_count(amount, denomination) && forall|i: int|
                0 <= i < v@.len() ==> #[trigger] self.prepared(denomination, v@[i].0, v@[i].1),
            self.accepts(denomination) && token_count(amount, denomination) == 0 ==> (r matches Ok(v)
                && v@.len() == 0),
    {
        if !self.accepts_denomination(denomination) {
            return Err(EcashError::InvalidDenomination);
        }
        let count = count_for(amount, denomination);
        let mut tokens: Vec<(BlindedToken, TokenMetadata)> = Vec::new();
        let mut i: u64 = 0;
        while i < count
            invariant
                self.wf(),
                self.accepts(denomination),
                count == token_count(amount, denomination),
                i <= count,
                tokens@.len() == i,
                forall|j: int|
                    0 <= j < tokens@.len() ==> #[trigger] self.prepared(
                        denomination,
                        tokens@[j].0,
                        tokens@[j].1,
                    ),
            decreases count - i,
        {
            let serial = Wallet::generate_serial();
            let issued_at = now_unix();
            let message = canonical_message(&serial, denomination, self.currency.as_str(), issued_at);
            let (blinded, blinding_factor) = match self.user.blind_message(&message) {
                Ok(pair) => pair,
                Err(err) => return Err(err),
            };
            let bt = BlindedToken {
                blinded_message: blinded,
                denomination,
                currency: self.currency.clone(),
            };
            let meta = TokenMetadata {
                serial_number: serial,
                blinding_factor,
                denomination,
                currency: self.currency.clone(),
                issued_at,
            };
            assert(self.prepared(denomination, bt, meta));
            tokens.push((bt, meta));
            i = i + 1;
        }
        Ok(tokens)
    }

    /// Unblinds each blind signature with the metadata at the same position,
    /// checks it against the metadata's canonical bytes and makes the token.
    /// Fails as a whole: `ProtocolMismatch` when the two lists differ in
    /// length, `BlindingFailed` for a factor with no inverse, and
    /// `InvalidSignature` for a signature that does not verify.
    pub fn finalize_withdrawal(
        &self,
        blind_signatures: Vec<BlindSignature>,
        metadata: Vec<TokenMetadata>,
        expires_at: i64,
    ) -> (r: Result<Vec<Token>, EcashError>)
        requires
            self.wf(),
        ensures
            r == Err::<Vec<Token>, EcashError>(EcashError::ProtocolMismatch) <==> blind_signatures@.len()
                != metadata@.len(),
            r is Ok <==> blind_signatures@.len() == metadata@.len() && forall|i: int|
                0 <= i < metadata@.len() ==> #[trigger] finalize_ok(
                    self.user.public_key,
                    blind_signatures@[i],
                    metadata@[i],
                ),
            r matches Err(err) ==> err == EcashError::ProtocolMismatch || err
                == EcashError::BlindingFailed || err == EcashError::InvalidSignature,
            r matches Err(err) ==> (blind_signatures@.len() == metadata@.len() ==> exists|i: int|
                #[trigger] first_failure(self.user.public_key, blind_signatures@, metadata@, i) && err
                    == failure_kind(self.user.public_key, metadata@[i])),
            r matches Ok(ts) ==> ts@.len() == metadata@.len() && forall|i: int|
                0 <= i < ts@.len() ==> #[trigger] self.finalized(
                    blind_signatures@[i],
                    metadata@[i],
                    expires_at,
                    ts@[i],
                ),
    {
        if blind_signatures.len() != metadata.len() {
            return Err(EcashError::ProtocolMismatch);
        }
        let ghost key = self.user.public_key;
        let mut tokens: Vec<Token> = Vec::new();
        let mut i: usize = 0;
        while i < metadata.len()
            invariant
                self.wf(),
                key == self.user.public_key,
                blind_signatures@.len() == metadata@.len(),
                i <= metadata@.len(),
                tokens@.len() == i,
                forall|j: int| 0 <= j < i ==> #[trigger] finalize_ok(key, blind_signatures@[j], metadata@[j]),
                forall|j: int|
                    0 <= j < i ==> #[trigger] self.finalized(
                        blind_signatures@[j],
                        metadata@[j],
                        expires_at,
                        tokens@[j],
                    ),
            decreases metadata@.len() - i,
        {
            let bs = &blind_signatures[i];
            let meta = &metadata[i];
            let signature = match self.user.unblind_signature(&bs.signature, &meta.blinding_factor) {
                Ok(s) => s,
                Err(err) => {
                    assert(!finalize_ok(key, blind_signatures@[i as int], metadata@[i as int]));
                    assert(first_failure(key, blind_signatures@, metadata@, i as int));
                    return Err(err);
                },
            };
            let message = canonical_message(
                &meta.serial_number,
                meta.denomination,
                meta.currency.as_str(),
                meta.issued_at,
            );
            if !self.user.verify_signature(&message, &signature) {
                assert(!finalize_ok(key, blind_signatures@[i as int], metadata@[i as int]));
                assert(first_failure(key, blind_signatures@, metadata@, i as int));
                return Err(EcashError::InvalidSignature);
            }
            proof {
                assert forall|s: nat|
                    unblinds(
                        key.modulus(),
                        be_value(bs.signature@),
                        be_value(meta.blinding_factor@),
                        s,
                    ) implies signature_valid(key, meta.message(), s) by {
                    lemma_unblind_unique(
                        key.modulus(),
                        be_value(bs.signature@),
                        be_value(meta.blinding_factor@),
                        s,
                        be_value(signature@),
                    );
                }
            }
            let token = Token {
                serial_number: slice_to_vec(meta.serial_number.as_slice()),
                denomination: meta.denomination,
                currency: meta.currency.clone(),
                signature,
                issued_at: meta.issued_at,
                expires_at,
                institution_id: self.institution_id.clone(),
                key_id: bs.key_id.clone(),
            };
            tokens.push(token);
            i = i + 1;
        }
        Ok(tokens)
    }
}


/// The issuer's signature on a prepared slot unblinds into a valid
/// signature: finalizing succeeds for that slot.
pub proof fn lemma_slot_finalizes(
    inst: Institution,
    wallet: Wallet,
    bt: BlindedToken,
    meta: TokenMetadata,
    bs: BlindSignature,
)
    requires
        inst.wf(),
        inst.modulus() >= pow(2, 256),
        wallet.user.public_key.n@ == inst.signer.public_key.n@,
        wallet.user.public_key.e@ == inst.signer.public_key.e@,
        wallet.prepared(meta.denomination, bt, meta),
        be_value(bs.signature@) == pow(be_value(bt.blinded_message@) as int, inst.private_exponent())
            % (inst.modulus() as int),
    ensures
        finalize_ok(wallet.user.public_key, bs, meta),
{
    let key = wallet.user.public_key;
    assert forall|s: nat|
        unblinds(key.modulus(), be_value(bs.signature@), be_value(meta.blinding_factor@), s) implies signature_valid(
        key,
        meta.message(),
        s,
    ) by {
        lemma_unblinded_signature_verifies(
            inst.signer,
            meta.message(),
            be_value(bt.blinded_message@),
            be_value(meta.blinding_factor@),
            be_value(bs.signature@),
            s,
        );
    }
}

/// A withdrawal round trip verifies. For a slot prepared by a wallet holding
/// the issuer's public key (with a modulus of at least 256 bits), of a
/// denomination the issuer accepts, and the issuer's signature on it:
/// finalizing succeeds for that slot, and the token it gives verifies as
/// long as it has not expired.
pub proof fn lemma_withdrawal_round_trip(
    inst: Institution,
    wallet: Wallet,
    bt: BlindedToken,
    meta: TokenMetadata,
    bs: BlindSignature,
    token: Token,
    now: i64,
)
    requires
        inst.wf(),
        inst.modulus() >= pow(2, 256),
        wallet.user.public_key.n@ == inst.signer.public_key.n@,
        wallet.user.public_key.e@ == inst.signer.public_key.e@,
        wallet.prepared(meta.denomination, bt, meta),
        inst.denominations@.contains(bt.denomination),
        be_value(bs.signature@) == pow(be_value(bt.blinded_message@) as int, inst.private_exponent())
            % (inst.modulus() as int),
        token.serial_number@ == meta.serial_number@,
        token.denomination == meta.denomination,
        token.currency@ == meta.currency@,
        token.issued_at == meta.issued_at,
        unblinds(inst.modulus(), be_value(bs.signature@), be_value(meta.blinding_factor@), be_value(token.signature@)),
        !token.expired_at(now),
    ensures
        finalize_ok(wallet.user.public_key, bs, meta),
        token_verdict(inst, token, now) == Ok::<bool, EcashError>(true),
{
    lemma_slot_finalizes(inst, wallet, bt, meta, bs);
    lemma_unblinded_signature_verifies(
        inst.signer,
        meta.message(),
        be_value(bt.blinded_message@),
        be_value(meta.blinding_factor@),
        be_value(bs.signature@),
        be_value(token.signature@),
    );
    assert(token.message() == meta.message());
}

/// A whole withdrawal finalizes: when the issuer signs every slot that the
/// wallet prepared, in order, every slot unblinds into a valid signature, so
/// `finalize_withdrawal` returns the tokens rather than an error.
pub proof fn lemma_withdrawal_batch_finalizes(
    inst: Institution,
    wallet: Wallet,
    denomination: u64,
    prepared: Seq<(BlindedToken, TokenMetadata)>,
    signatures: Seq<BlindSignature>,
)
    requires
        inst.wf(),
        inst.modulus() >= pow(2, 256),
        wallet.user.public_key.n@ == inst.signer.public_key.n@,
        wallet.user.public_key.e@ == inst.signer.public_key.e@,
        forall|i: int| 0 <= i < prepared.len() ==> #[trigger] wallet.prepared(denomination, prepared[i].0, prepared[i].1),
        signatures.len() == prepared.len(),
        forall|i: int|
            0 <= i < prepared.len() ==> #[trigger] be_value(signatures[i].signature@) == pow(
                be_value(prepared[i].0.blinded_message@) as int,
                inst.private_exponent(),
            ) % (inst.modulus() as int),
    ensures
        forall|i: int|
            0 <= i < prepared.len() ==> #[trigger] finalize_ok(wallet.user.public_key, signatures[i], prepared[i].1),
{
    assert forall|i: int| 0 <= i < prepared.len() implies #[trigger] finalize_ok(
        wallet.user.public_key,
        signatures[i],
        prepared[i].1,
    ) by {
        assert(wallet.prepared(denomination, prepared[i].0, prepared[i].1));
        assert(be_value(signatures[i].signature@) == pow(
            be_value(prepared[i].0.blinded_message@) as int,
            inst.private_exponent(),
        ) % (inst.modulus() as int));
        lemma_slot_finalizes(inst, wallet, prepared[i].0, prepared[i].1, signatures[i]);
    }
}

} // verus!
