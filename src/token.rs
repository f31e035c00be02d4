//! Tokens, their blinded forms, and the canonical bytes that are signed.

use crate::clock::now_unix;
use vstd::prelude::*;
use vstd::arithmetic::power::{lemma_pow_multiplies, pow};
use vstd::arithmetic::power2::{lemma2_to64, lemma_pow2};
use vstd::utf8::{encode_utf8, encode_utf8_decode_utf8};

verus! {

/// Digits of lower-case hexadecimal.
pub open spec fn hex_digits() -> Seq<char> {
    seq!['0', '1', '2', '3', '4', '5', '6', '7', '8', '9', 'a', 'b', 'c', 'd', 'e', 'f']
}

/// Lower-case hexadecimal text of `bytes`, two digits per byte, high nibble first.
pub open spec fn hex_of(bytes: Seq<u8>) -> Seq<char>
    decreases bytes.len(),
{
    if bytes.len() == 0 {
        seq![]
    } else {
        let b = bytes.last() as nat;
        hex_of(bytes.drop_last()) + seq![hex_digits()[(b / 16) as int], hex_digits()[(b % 16) as int]]
    }
}

/// Relies on `hex::encode`: two lower-case hexadecimal digits per byte, in order.
#[verifier::external_body]
pub(crate) fn hex_encode(bytes: &[u8]) -> (r: String)
    ensures
        r@ == hex_of(bytes@),
{
    hex::encode(bytes)
}

/// The `len` low-order bytes of `x`, most significant first.
pub open spec fn be_fixed(x: nat, len: nat) -> Seq<u8>
    decreases len,
{
    if len == 0 {
        seq![]
    } else {
        be_fixed(x / 256, (len - 1) as nat).push((x % 256) as u8)
    }
}

/// The bytes that are hashed and signed for a token:
/// `serial || denomination (u64, big-endian) || currency (UTF-8) || issued_at (i64, big-endian)`.
pub open spec fn canonical_tuple(serial: Seq<u8>, denomination: u64, currency: Seq<char>, issued_at: i64) -> Seq<u8> {
    serial + be_fixed(denomination as nat, 8) + encode_utf8(currency) + be_fixed(
        (issued_at as u64) as nat,
        8,
    )
}

/// Numbers below `256^len` have distinct `len`-byte forms.
pub proof fn lemma_be_fixed_injective(x: nat, y: nat, len: nat)
    requires
        x < pow(256, len),
        y < pow(256, len),
        be_fixed(x, len) == be_fixed(y, len),
    ensures
        x == y,
    decreases len,
{
    reveal(pow);
    if len == 0 {
        assert(x == 0 && y == 0);
    } else {
        let bx = be_fixed(x / 256, (len - 1) as nat);
        let by = be_fixed(y / 256, (len - 1) as nat);
        assert(be_fixed(x, len).drop_last() == bx);
        assert(be_fixed(y, len).drop_last() == by);
        assert(be_fixed(x, len).last() == (x % 256) as u8);
        assert(be_fixed(y, len).last() == (y % 256) as u8);
        let p = pow(256, (len - 1) as nat);
        lemma_div_upper(x, p);
        lemma_div_upper(y, p);
        lemma_be_fixed_injective(x / 256, y / 256, (len - 1) as nat);
    }
}

proof fn lemma_div_upper(x: nat, p: int)
    requires
        p > 0,
        x < 256 * p,
    ensures
        x / 256 < p,
{
    assert(x / 256 < p) by (nonlinear_arith)
        requires
            x < 256 * p,
    ;
}

/// The fixed-width form of `x` has `len` bytes.
pub proof fn lemma_be_fixed_len(x: nat, len: nat)
    ensures
        be_fixed(x, len).len() == len,
    decreases len,
{
    if len > 0 {
        lemma_be_fixed_len(x / 256, (len - 1) as nat);
    }
}

/// The canonical bytes determine the fields they were made from, among
/// serial numbers of one length.
pub proof fn lemma_canonical_tuple_injective(
    serial1: Seq<u8>,
    denomination1: u64,
    currency1: Seq<char>,
    issued_at1: i64,
    serial2: Seq<u8>,
    denomination2: u64,
    currency2: Seq<char>,
    issued_at2: i64,
)
    requires
        serial1.len() == serial2.len(),
        canonical_tuple(serial1, denomination1, currency1, issued_at1) == canonical_tuple(
            serial2,
            denomination2,
            currency2,
            issued_at2,
        ),
    ensures
        serial1 == serial2,
        denomination1 == denomination2,
        currency1 == currency2,
        issued_at1 == issued_at2,
{
    let d1 = be_fixed(denomination1 as nat, 8);
    let d2 = be_fixed(denomination2 as nat, 8);
    let i1 = be_fixed((issued_at1 as u64) as nat, 8);
    let i2 = be_fixed((issued_at2 as u64) as nat, 8);
    let c1 = encode_utf8(currency1);
    let c2 = encode_utf8(currency2);
    lemma_be_fixed_len(denomination1 as nat, 8);
    lemma_be_fixed_len(denomination2 as nat, 8);
    lemma_be_fixed_len((issued_at1 as u64) as nat, 8);
    lemma_be_fixed_len((issued_at2 as u64) as nat, 8);
    let t = canonical_tuple(serial1, denomination1, currency1, issued_at1);
    let l = serial1.len() as int;
    assert(t == serial1 + d1 + c1 + i1);
    assert(t == serial2 + d2 + c2 + i2);
    assert(c1.len() == c2.len());
    assert(serial1 =~= t.subrange(0, l));
    assert(serial2 =~= t.subrange(0, l));
    assert(d1 =~= t.subrange(l, l + 8));
    assert(d2 =~= t.subrange(l, l + 8));
    assert(c1 =~= t.subrange(l + 8, l + 8 + c1.len()));
    assert(c2 =~= t.subrange(l + 8, l + 8 + c1.len()));
    assert(i1 =~= t.subrange(l + 8 + c1.len(), t.len() as int));
    assert(i2 =~= t.subrange(l + 8 + c1.len(), t.len() as int));
    lemma2_to64();
    lemma_pow2(64);
    lemma_pow2(8);
    lemma_pow_multiplies(2, 8, 8);
    lemma_be_fixed_injective(denomination1 as nat, denomination2 as nat, 8);
    lemma_be_fixed_injective((issued_at1 as u64) as nat, (issued_at2 as u64) as nat, 8);
    encode_utf8_decode_utf8(currency1);
    encode_utf8_decode_utf8(currency2);
    assert((issued_at1 as u64) == (issued_at2 as u64) ==> issued_at1 == issued_at2) by (bit_vector);
}

/// The `len` low-order bytes of `x`, most significant first.
pub fn be_fixed_bytes(x: u64, len: usize) -> (r: Vec<u8>)
    ensures
        r@ == be_fixed(x as nat, len as nat),
    decreases len,
{
    if len == 0 {
        Vec::new()
    } else {
        let mut r = be_fixed_bytes(x / 256, len - 1);
        r.push((x % 256) as u8);
        r
    }
}

/// Appends `src` to `out`.
fn append_bytes(out: &mut Vec<u8>, src: &[u8])
    ensures
        final(out)@ == old(out)@ + src@,
{
    let mut i: usize = 0;
    while i < src.len()
        invariant
            i <= src@.len(),
            out@ == old(out)@ + src@.subrange(0, i as int),
        decreases src@.len() - i,
    {
        out.push(src[i]);
        i = i + 1;
        proof {
            assert(src@.subrange(0, i as int) =~= src@.subrange(0, i - 1) + seq![src@[i - 1]]);
        }
    }
    proof {
        assert(src@.subrange(0, src@.len() as int) =~= src@);
    }
}

/// The canonical signed bytes of a token's fields. Wallet and issuer both
/// build them here, so they agree byte for byte.
pub fn canonical_message(serial: &[u8], denomination: u64, currency: &str, issued_at: i64) -> (r: Vec<u8>)
    ensures
        r@ == canonical_tuple(serial@, denomination, currency@, issued_at),
{
    let mut message: Vec<u8> = Vec::new();
    append_bytes(&mut message, serial);
    append_bytes(&mut message, &be_fixed_bytes(denomination, 8));
    append_bytes(&mut message, currency.as_bytes());
    append_bytes(&mut message, &be_fixed_bytes(issued_at as u64, 8));
    proof {
        assert(message@ =~= canonical_tuple(serial@, denomination, currency@, issued_at));
    }
    message
}

/// An unblinded, spendable token. Times are seconds since the Unix epoch.
#[derive(Debug, Clone)]
pub struct Token {
    pub serial_number: Vec<u8>,
    pub denomination: u64,
    pub currency: String,
    pub signature: Vec<u8>,
    pub issued_at: i64,
    pub expires_at: i64,
    pub institution_id: String,
    pub key_id: String,
}

impl Token {
    /// The bytes the issuer's signature covers.
    pub open spec fn message(&self) -> Seq<u8> {
        canonical_tuple(self.serial_number@, self.denomination, self.currency@, self.issued_at)
    }

    /// Expired at time `now`: its expiry is not after `now`.
    pub open spec fn expired_at(&self, now: i64) -> bool {
        self.expires_at <= now
    }

    /// A token issued now, with the given fields.
    pub fn new(
        serial_number: Vec<u8>,
        denomination: u64,
        currency: String,
        signature: Vec<u8>,
        expires_at: i64,
        institution_id: String,
        key_id: String,
    ) -> (r: Token)
        ensures
            r.serial_number == serial_number,
            r.denomination == denomination,
            r.currency == currency,
            r.signature == signature,
            r.expires_at == expires_at,
            r.institution_id == institution_id,
            r.key_id == key_id,
    {
        Token {
            serial_number,
            denomination,
            currency,
            signature,
            issued_at: now_unix(),
            expires_at,
            institution_id,
            key_id,
        }
    }

    /// Whether the token has expired at time `now`.
    pub fn is_expired_at(&self, now: i64) -> (r: bool)
        ensures
            r == self.expired_at(now),
    {
        self.expires_at <= now
    }

    /// Whether the token has expired by the clock: the result is
    /// `is_expired_at` of the time the clock gave.
    pub fn is_expired(&self) -> (r: bool) {
        self.is_expired_at(now_unix())
    }

    /// The serial number as lower-case hexadecimal, the key of spent records.
    pub fn serial_hex(&self) -> (r: String)
        ensures
            r@ == hex_of(self.serial_number@),
    {
        hex_encode(&self.serial_number)
    }
}

/// A blinded digest sent to the issuer for signing.
#[derive(Debug, Clone)]
pub struct BlindedToken {
    pub blinded_message: Vec<u8>,
    pub denomination: u64,
    pub currency: String,
}

/// The issuer's signature on a blinded digest, still blinded.
#[derive(Debug, Clone)]
pub struct BlindSignature {
    pub signature: Vec<u8>,
    pub key_id: String,
}

/// What the wallet keeps, never sent, to unblind the matching signature.
#[derive(Debug, Clone)]
pub struct TokenMetadata {
    pub serial_number: Vec<u8>,
    pub blinding_factor: Vec<u8>,
    pub denomination: u64,
    pub currency: String,
    pub issued_at: i64,
}

impl TokenMetadata {
    /// The bytes that the token made from this metadata will be signed over.
    pub open spec fn message(&self) -> Seq<u8> {
        canonical_tuple(self.serial_number@, self.denomination, self.currency@, self.issued_at)
    }
}

} // verus!
