//! The issuer's request handling: withdrawal checks, the redemption state
//! machine with its two-tier double-spend guard, and token verification.
//!
//! The spent-set (a fast cache with an atomic check-and-mark) and the ledger
//! (the durable, authoritative record of redeemed serials) are services
//! outside this library. Redemption is therefore a state machine: each step
//! names the store query to make next, and the answer comes back as an event.

use crate::bignum::{be_value, decimal_text, to_decimal, u64_text};
use crate::error::{error_text, EcashError};
use crate::protocol::{
    count_for, lemma_flipped_signature_fails, token_count, token_verdict, Institution,
};
use crate::token::{hex_of, BlindSignature, BlindedToken, Token};
use vstd::arithmetic::power::pow;
use vstd::prelude::*;
use vstd::string::StringExecFns;
use vstd::slice::slice_to_vec;

verus! {

/// How long a spent-set entry lives, in seconds, unless tokens are valid longer.
pub const DEFAULT_SPENT_TTL_SECONDS: i64 = 7776000;

/// What is wrong with a request's shape.
#[derive(Debug, Clone, Copy, PartialEq, Eq, Structural)]
pub enum RequestProblem {
    NoTokens,
    CountMismatch { expected: u64, amount: u64, denomination: u64 },
    MixedDenominations,
    AmountOverflow,
    /// A field that does not read, such as a time that is not RFC 3339.
    Malformed,
}

/// Errors of the issuer's endpoints.
#[derive(Debug, Clone, Copy, PartialEq, Eq, Structural)]
pub enum ApiError {
    Database,
    Cache,
    Ecash(EcashError),
    InvalidDenomination(u64),
    TokenAlreadySpent,
    TokenExpired,
    InvalidSignature,
    InvalidRequest(RequestProblem),
    Internal,
}

/// The text of a request problem.
pub open spec fn problem_text(p: RequestProblem) -> Seq<char> {
    match p {
        RequestProblem::NoTokens => "No tokens provided"@,
        RequestProblem::CountMismatch { expected, amount, denomination } => "Expected "@
            + decimal_text(expected as nat) + " tokens for amount "@ + decimal_text(amount as nat)
            + " with denomination "@ + decimal_text(denomination as nat),
        RequestProblem::MixedDenominations => "All tokens must have same denomination"@,
        RequestProblem::AmountOverflow => "Total amount overflows"@,
        RequestProblem::Malformed => "Malformed request"@,
    }
}

/// The text an endpoint error is answered with.
pub open spec fn api_error_text(e: ApiError) -> Seq<char> {
    match e {
        ApiError::Database => "Database error"@,
        ApiError::Cache => "Cache error"@,
        ApiError::Ecash(inner) => error_text(inner),
        ApiError::InvalidDenomination(d) => "Invalid denomination: "@ + decimal_text(d as nat),
        ApiError::TokenAlreadySpent => "Token already spent"@,
        ApiError::TokenExpired => "Token expired"@,
        ApiError::InvalidSignature => "Invalid signature"@,
        ApiError::InvalidRequest(p) => problem_text(p),
        ApiError::Internal => "Internal server error"@,
    }
}

impl RequestProblem {
    /// The text of the problem.
    pub fn message(&self) -> (r: String)
        ensures
            r@ == problem_text(*self),
    {
        match self {
            RequestProblem::NoTokens => String::from_str("No tokens provided"),
            RequestProblem::CountMismatch { expected, amount, denomination } => {
                let mut text = String::from_str("Expected ");
                text.append(u64_text(*expected).as_str());
                text.append(" tokens for amount ");
                text.append(u64_text(*amount).as_str());
                text.append(" with denomination ");
                text.append(u64_text(*denomination).as_str());
                text
            },
            RequestProblem::MixedDenominations => String::from_str(
                "All tokens must have same denomination",
            ),
            RequestProblem::AmountOverflow => String::from_str("Total amount overflows"),
            RequestProblem::Malformed => String::from_str("Malformed request"),
        }
    }
}

impl ApiError {
    /// The text the error is answered with.
    pub fn message(&self) -> (r: String)
        ensures
            r@ == api_error_text(*self),
    {
        match self {
            ApiError::Database => String::from_str("Database error"),
            ApiError::Cache => String::from_str("Cache error"),
            ApiError::Ecash(inner) => String::from_str(inner.message()),
            ApiError::InvalidDenomination(d) => {
                let mut text = String::from_str("Invalid denomination: ");
                text.append(u64_text(*d).as_str());
                text
            },
            ApiError::TokenAlreadySpent => String::from_str("Token already spent"),
            ApiError::TokenExpired => String::from_str("Token expired"),
            ApiError::InvalidSignature => String::from_str("Invalid signature"),
            ApiError::InvalidRequest(p) => p.message(),
            ApiError::Internal => String::from_str("Internal server error"),
        }
    }

    /// The HTTP status the error is answered with.
    pub open spec fn status_spec(self) -> u16 {
        match self {
            ApiError::Database | ApiError::Cache | ApiError::Internal => 500,
            ApiError::TokenAlreadySpent => 409,
            _ => 400,
        }
    }

    /// The HTTP status the error is answered with: 409 for a spent token,
    /// 500 for a failed service, 400 for everything the client sent wrong.
    pub fn status_code(&self) -> (r: u16)
        ensures
            r == self.status_spec(),
    {
        match self {
            ApiError::Database | ApiError::Cache | ApiError::Internal => 500,
            ApiError::TokenAlreadySpent => 409,
            _ => 400,
        }
    }
}

/// A request to sign `blinded_tokens` for `amount` in tokens of `denomination`.
#[derive(Debug, Clone)]
pub struct WithdrawRequest {
    pub amount: u64,
    pub denomination: u64,
    pub blinded_tokens: Vec<BlindedToken>,
}

/// The signatures of a withdrawal, with the key id, the tokens' expiry (in
/// seconds since the Unix epoch) and the transaction's id.
#[derive(Debug, Clone)]
pub struct WithdrawResponse {
    pub blind_signatures: Vec<BlindSignature>,
    pub key_id: String,
    pub expires_at: i64,
    pub transaction_id: String,
}

/// Tokens to redeem, for a merchant if one is named.
#[derive(Debug, Clone)]
pub struct RedeemRequest {
    pub tokens: Vec<Token>,
    pub merchant_id: Option<String>,
}

/// A token whose state is asked for.
#[derive(Debug, Clone)]
pub struct VerifyRequest {
    pub token: Token,
}

/// The outcome of a successful redemption.
#[derive(Debug, Clone)]
pub struct RedeemResponse {
    pub accepted_count: usize,
    pub total_amount: u64,
    pub transaction_id: String,
    pub timestamp: i64,
}

/// What `/verify` reports of a token.
#[derive(Debug, Clone)]
pub struct VerifyResponse {
    pub valid: bool,
    pub expired: bool,
    pub spent: bool,
    pub message: String,
}

/// The issuer's advertised key and denominations; the modulus and the
/// exponent are decimal text.
#[derive(Debug, Clone)]
pub struct PublicKeyResponse {
    pub key_id: String,
    pub institution_id: String,
    pub public_key_n: String,
    pub public_key_e: String,
    pub denominations: Vec<u64>,
    pub expires_at: Option<i64>,
}

/// Service health as the issuer reports it.
#[derive(Debug, Clone)]
pub struct HealthResponse {
    pub status: String,
    pub database: String,
    pub redis: String,
    pub timestamp: i64,
}

/// A record for the transaction log.
#[derive(Debug, Clone)]
pub struct TransactionLog {
    pub transaction_type: String,
    pub amount: u64,
    pub denomination: u64,
    pub token_count: usize,
    pub institution_id: String,
    pub key_id: String,
    pub status: String,
    pub error_message: Option<String>,
}

/// What a withdrawal request gets, without the signatures' values.
pub open spec fn withdraw_verdict(inst: Institution, request: WithdrawRequest) -> Result<(), ApiError> {
    let d = request.denomination;
    let n = request.blinded_tokens@.len();
    if !inst.denominations@.contains(d) {
        Err(ApiError::InvalidDenomination(d))
    } else if n == 0 {
        Err(ApiError::InvalidRequest(RequestProblem::NoTokens))
    } else if n != token_count(request.amount, d) {
        Err(
            ApiError::InvalidRequest(
                RequestProblem::CountMismatch {
                    expected: token_count(request.amount, d) as u64,
                    amount: request.amount,
                    denomination: d,
                },
            ),
        )
    } else if exists|i: int| 0 <= i < n && #[trigger] request.blinded_tokens@[i].denomination != d {
        Err(ApiError::InvalidRequest(RequestProblem::MixedDenominations))
    } else {
        Ok(())
    }
}

/// Checks a withdrawal request and signs each of its blinded tokens: the
/// denomination must be accepted, and there must be exactly
/// `ceil(amount / denomination)` blinded tokens, all of that denomination.
/// Nothing is signed unless every check passes.
pub fn sign_withdrawal(inst: &Institution, request: &WithdrawRequest) -> (r: Result<Vec<BlindSignature>, ApiError>)
    requires
        inst.wf(),
    ensures
        r is Ok <==> withdraw_verdict(*inst, *request) is Ok,
        r matches Err(err) ==> withdraw_verdict(*inst, *request) == Err::<(), ApiError>(err),
        r matches Ok(sigs) ==> sigs@.len() == request.blinded_tokens@.len() && forall|i: int|
            0 <= i < sigs@.len() ==> {
                &&& #[trigger] sigs@[i].key_id@ == inst.key_id@
                &&& be_value(sigs@[i].signature@) == pow(
                    be_value(request.blinded_tokens@[i].blinded_message@) as int,
                    inst.private_exponent(),
                ) % (inst.modulus() as int)
            },
{
    let d = request.denomination;
    if !inst.is_valid_denomination(d) {
        return Err(ApiError::InvalidDenomination(d));
    }
    let n = request.blinded_tokens.len();
    if n == 0 {
        return Err(ApiError::InvalidRequest(RequestProblem::NoTokens));
    }
    let expected = count_for(request.amount, d);
    if n as u64 != expected {
        return Err(
            ApiError::InvalidRequest(
                RequestProblem::CountMismatch { expected, amount: request.amount, denomination: d },
            ),
        );
    }
    let mut i: usize = 0;
    while i < n
        invariant
            n == request.blinded_tokens@.len(),
            d == request.denomination,
            inst.denominations@.contains(d),
            n as nat == token_count(request.amount, d),
            n > 0,
            i <= n,
            forall|j: int| 0 <= j < i ==> #[trigger] request.blinded_tokens@[j].denomination == d,
        decreases n - i,
    {
        if request.blinded_tokens[i].denomination != d {
            assert(request.blinded_tokens@[i as int].denomination != d);
            return Err(ApiError::InvalidRequest(RequestProblem::MixedDenominations));
        }
        i = i + 1;
    }
    let mut sigs: Vec<BlindSignature> = Vec::new();
    let mut k: usize = 0;
    while k < n
        invariant
            inst.wf(),
            n == request.blinded_tokens@.len(),
            k <= n,
            sigs@.len() == k,
            inst.denominations@.contains(d),
            forall|j: int| 0 <= j < n ==> #[trigger] request.blinded_tokens@[j].denomination == d,
            forall|j: int| 0 <= j < k ==> #[trigger] sigs@[j].key_id@ == inst.key_id@,
            forall|j: int|
                0 <= j < k ==> #[trigger] be_value(sigs@[j].signature@) == pow(
                    be_value(request.blinded_tokens@[j].blinded_message@) as int,
                    inst.private_exponent(),
                ) % (inst.modulus() as int),
        decreases n - k,
    {
        match inst.sign_blinded_token(&request.blinded_tokens[k]) {
            Ok(sig) => {
                sigs.push(sig);
                assert(sigs@[k as int] == sig);
            },
            Err(err) => return Err(ApiError::Ecash(err)),
        }
        k = k + 1;
    }
    Ok(sigs)
}


/// The message `/verify` gives for a token in the given state.
pub open spec fn verify_message(expired: bool, spent: bool, valid: bool) -> Seq<char> {
    if expired {
        "Token has expired"@
    } else if spent {
        "Token has already been spent"@
    } else if !valid {
        "Invalid token signature"@
    } else {
        "Token is valid"@
    }
}

/// Reports the state of `token` at time `now`, given whether the spent-set
/// and the ledger hold its serial (a store that could not be asked counts as
/// not holding it). Valid means unexpired, unspent and verifying; an error
/// of verification counts as invalid.
pub fn verify_report(inst: &Institution, token: &Token, now: i64, spent_in_set: bool, spent_in_ledger: bool) -> (r: VerifyResponse)
    requires
        inst.wf(),
    ensures
        r.expired == token.expired_at(now),
        r.spent == (spent_in_set || spent_in_ledger),
        r.valid == (!r.expired && !r.spent && token_verdict(*inst, *token, now) == Ok::<bool, EcashError>(true)),
        r.message@ == verify_message(r.expired, r.spent, r.valid),
{
    let expired = token.is_expired_at(now);
    let spent = spent_in_set || spent_in_ledger;
    let valid = if expired || spent {
        false
    } else {
        match inst.verify_token_at(token, now) {
            Ok(v) => v,
            Err(_) => false,
        }
    };
    let message = if expired {
        "Token has expired".to_string()
    } else if spent {
        "Token has already been spent".to_string()
    } else if !valid {
        "Invalid token signature".to_string()
    } else {
        "Token is valid".to_string()
    };
    VerifyResponse { valid, expired, spent, message }
}

/// The issuer's advertised key: ids, modulus, exponent and denominations.
pub fn key_response(inst: &Institution) -> (r: PublicKeyResponse)
    ensures
        r.key_id@ == inst.key_id@,
        r.institution_id@ == inst.institution_id@,
        r.public_key_n@ == decimal_text(inst.signer.public_key.modulus()),
        r.public_key_e@ == decimal_text(inst.signer.public_key.exponent()),
        r.denominations@ == inst.denominations@,
        r.expires_at is None,
{
    PublicKeyResponse {
        key_id: inst.key_id.clone(),
        institution_id: inst.institution_id.clone(),
        public_key_n: to_decimal(&inst.signer.public_key.n),
        public_key_e: to_decimal(&inst.signer.public_key.e),
        denominations: slice_to_vec(inst.denominations.as_slice()),
        expires_at: None,
    }
}

/// Counts of a redemption so far.
#[derive(Debug, Clone, Copy, PartialEq, Eq, Structural)]
pub struct RedeemTotals {
    pub accepted_count: usize,
    pub total_amount: u64,
}

/// Which answer a redemption waits for.
#[derive(Debug, Clone, Copy, PartialEq, Eq, Structural)]
pub enum RedeemStage {
    AwaitSpentSet,
    AwaitLedger,
    AwaitMark,
    AwaitRecord,
    Finished,
}

/// What the caller does next for a redemption.
#[derive(Debug, Clone, Copy, PartialEq, Eq, Structural)]
pub enum RedeemAction {
    /// Ask the spent-set whether the serial of token `index` is present.
    QuerySpentSet(usize),
    /// Ask the ledger whether the serial of token `index` is recorded.
    QueryLedger(usize),
    /// Atomically add the serial of token `index` to the spent-set, to live
    /// for the given number of seconds, reporting whether it was absent.
    MarkSpent(usize, i64),
    /// Record token `index` in the ledger.
    RecordSpent(usize),
    /// Stop: every token was accepted, with these totals.
    Complete(RedeemTotals),
    /// Stop: the redemption fails with this error.
    Fail(ApiError),
}

/// What came back from the store that an action addressed.
#[derive(Debug, Clone, Copy, PartialEq, Eq, Structural)]
pub enum RedeemEvent {
    /// A query's answer (present or not), or a mark's (newly marked or not).
    Answer(bool),
    /// The ledger recorded the token.
    Recorded,
    /// The ledger already held the serial.
    Duplicate,
    /// The store failed.
    StoreFailed(ApiError),
}

/// A redemption in progress: the token at `index` is being processed.
#[derive(Debug, Clone, Copy, PartialEq, Eq, Structural)]
pub struct RedeemSession {
    pub index: usize,
    pub stage: RedeemStage,
    pub totals: RedeemTotals,
    pub now: i64,
}

/// Seconds a spent-set entry lives: at least the default, and never less
/// than the tokens' validity.
pub open spec fn spent_ttl(inst: Institution) -> i64 {
    if inst.validity_seconds > DEFAULT_SPENT_TTL_SECONDS {
        inst.validity_seconds
    } else {
        DEFAULT_SPENT_TTL_SECONDS
    }
}

/// Stop with error `e`.
pub open spec fn fail(s: RedeemSession, e: ApiError) -> (RedeemSession, RedeemAction) {
    (RedeemSession { stage: RedeemStage::Finished, ..s }, RedeemAction::Fail(e))
}

/// Move on to token `index` with `totals`: finish with the totals after the
/// last token, reject an expired token, else ask the spent-set.
pub open spec fn enter(tokens: Seq<Token>, now: i64, index: usize, totals: RedeemTotals) -> (RedeemSession, RedeemAction) {
    let s = RedeemSession { index, stage: RedeemStage::AwaitSpentSet, totals, now };
    if index >= tokens.len() {
        (RedeemSession { stage: RedeemStage::Finished, ..s }, RedeemAction::Complete(totals))
    } else if tokens[index as int].expired_at(now) {
        fail(s, ApiError::TokenExpired)
    } else {
        (s, RedeemAction::QuerySpentSet(index))
    }
}

/// How a redemption of `tokens` at time `now` begins.
pub open spec fn begin(tokens: Seq<Token>, now: i64) -> (RedeemSession, RedeemAction) {
    let zero = RedeemTotals { accepted_count: 0, total_amount: 0 };
    if tokens.len() == 0 {
        fail(
            RedeemSession { index: 0, stage: RedeemStage::Finished, totals: zero, now },
            ApiError::InvalidRequest(RequestProblem::NoTokens),
        )
    } else {
        enter(tokens, now, 0, zero)
    }
}

/// One transition of a redemption on `ev`. Per token, in order: not
/// expired, absent from the spent-set, absent from the ledger, a valid
/// signature, newly marked in the spent-set, newly recorded in the ledger.
/// The first failure ends the redemption; tokens before it stay spent.
pub open spec fn advance(s: RedeemSession, inst: Institution, tokens: Seq<Token>, ev: RedeemEvent) -> (RedeemSession, RedeemAction) {
    let i = s.index;
    match (s.stage, ev) {
        (RedeemStage::Finished, _) => fail(s, ApiError::Internal),
        (_, RedeemEvent::StoreFailed(e)) => fail(s, e),
        (RedeemStage::AwaitSpentSet, RedeemEvent::Answer(present)) => if present {
            fail(s, ApiError::TokenAlreadySpent)
        } else {
            (RedeemSession { stage: RedeemStage::AwaitLedger, ..s }, RedeemAction::QueryLedger(i))
        },
        (RedeemStage::AwaitLedger, RedeemEvent::Answer(present)) => if present {
            fail(s, ApiError::TokenAlreadySpent)
        } else {
            match token_verdict(inst, tokens[i as int], s.now) {
                Err(e) => fail(s, ApiError::Ecash(e)),
                Ok(valid) => if valid {
                    (
                        RedeemSession { stage: RedeemStage::AwaitMark, ..s },
                        RedeemAction::MarkSpent(i, spent_ttl(inst)),
                    )
                } else {
                    fail(s, ApiError::InvalidSignature)
                },
            }
        },
        (RedeemStage::AwaitMark, RedeemEvent::Answer(marked)) => if marked {
            (RedeemSession { stage: RedeemStage::AwaitRecord, ..s }, RedeemAction::RecordSpent(i))
        } else {
            fail(s, ApiError::TokenAlreadySpent)
        },
        (RedeemStage::AwaitRecord, RedeemEvent::Duplicate) => fail(s, ApiError::TokenAlreadySpent),
        (RedeemStage::AwaitRecord, RedeemEvent::Recorded) => {
            let total = s.totals.total_amount + tokens[i as int].denomination;
            if total > u64::MAX {
                fail(s, ApiError::InvalidRequest(RequestProblem::AmountOverflow))
            } else {
                enter(
                    tokens,
                    s.now,
                    (i + 1) as usize,
                    RedeemTotals {
                        accepted_count: (s.totals.accepted_count + 1) as usize,
                        total_amount: total as u64,
                    },
                )
            }
        },
        _ => fail(s, ApiError::Internal),
    }
}

impl RedeemSession {
    /// A session that is still working points at a token, and has accepted
    /// no more tokens than it has passed.
    pub open spec fn wf(&self, tokens: Seq<Token>) -> bool {
        &&& self.totals.accepted_count <= self.index
        &&& self.stage != RedeemStage::Finished ==> self.index < tokens.len()
    }

    fn enter_token(tokens: &[Token], now: i64, index: usize, totals: RedeemTotals) -> (r: (RedeemSession, RedeemAction))
        requires
            totals.accepted_count <= index,
        ensures
            r == enter(tokens@, now, index, totals),
            r.0.wf(tokens@),
    {
        let s = RedeemSession { index, stage: RedeemStage::AwaitSpentSet, totals, now };
        if index >= tokens.len() {
            (RedeemSession { stage: RedeemStage::Finished, ..s }, RedeemAction::Complete(totals))
        } else if tokens[index].is_expired_at(now) {
            (
                RedeemSession { stage: RedeemStage::Finished, ..s },
                RedeemAction::Fail(ApiError::TokenExpired),
            )
        } else {
            (s, RedeemAction::QuerySpentSet(index))
        }
    }

    /// Begins redeeming `tokens` at time `now`.
    pub fn start(tokens: &[Token], now: i64) -> (r: (RedeemSession, RedeemAction))
        ensures
            r == begin(tokens@, now),
            r.0.wf(tokens@),
    {
        let zero = RedeemTotals { accepted_count: 0, total_amount: 0 };
        if tokens.len() == 0 {
            (
                RedeemSession { index: 0, stage: RedeemStage::Finished, totals: zero, now },
                RedeemAction::Fail(ApiError::InvalidRequest(RequestProblem::NoTokens)),
            )
        } else {
            RedeemSession::enter_token(tokens, now, 0, zero)
        }
    }

    /// Takes the answer to the last action and says what to do next.
    pub fn step(&mut self, inst: &Institution, tokens: &[Token], event: RedeemEvent) -> (r: RedeemAction)
        requires
            inst.wf(),
            old(self).wf(tokens@),
        ensures
            (*final(self), r) == advance(*old(self), *inst, tokens@, event),
            final(self).wf(tokens@),
    {
        let s = *self;
        let i = s.index;
        let (next, action) = match (s.stage, event) {
            (RedeemStage::Finished, _) => (
                RedeemSession { stage: RedeemStage::Finished, ..s },
                RedeemAction::Fail(ApiError::Internal),
            ),
            (_, RedeemEvent::StoreFailed(e)) => (
                RedeemSession { stage: RedeemStage::Finished, ..s },
                RedeemAction::Fail(e),
            ),
            (RedeemStage::AwaitSpentSet, RedeemEvent::Answer(present)) => if present {
                (
                    RedeemSession { stage: RedeemStage::Finished, ..s },
                    RedeemAction::Fail(ApiError::TokenAlreadySpent),
                )
            } else {
                (RedeemSession { stage: RedeemStage::AwaitLedger, ..s }, RedeemAction::QueryLedger(i))
            },
            (RedeemStage::AwaitLedger, RedeemEvent::Answer(present)) => if present {
                (
                    RedeemSession { stage: RedeemStage::Finished, ..s },
                    RedeemAction::Fail(ApiError::TokenAlreadySpent),
                )
            } else {
                match inst.verify_token_at(&tokens[i], s.now) {
                    Err(e) => (
                        RedeemSession { stage: RedeemStage::Finished, ..s },
                        RedeemAction::Fail(ApiError::Ecash(e)),
                    ),
                    Ok(valid) => if valid {
                        let ttl = if inst.validity_seconds > DEFAULT_SPENT_TTL_SECONDS {
                            inst.validity_seconds
                        } else {
                            DEFAULT_SPENT_TTL_SECONDS
                        };
                        (RedeemSession { stage: RedeemStage::AwaitMark, ..s }, RedeemAction::MarkSpent(i, ttl))
                    } else {
                        (
                            RedeemSession { stage: RedeemStage::Finished, ..s },
                            RedeemAction::Fail(ApiError::InvalidSignature),
                        )
                    },
                }
            },
            (RedeemStage::AwaitMark, RedeemEvent::Answer(marked)) => if marked {
                (RedeemSession { stage: RedeemStage::AwaitRecord, ..s }, RedeemAction::RecordSpent(i))
            } else {
                (
                    RedeemSession { stage: RedeemStage::Finished, ..s },
                    RedeemAction::Fail(ApiError::TokenAlreadySpent),
                )
            },
            (RedeemStage::AwaitRecord, RedeemEvent::Duplicate) => (
                RedeemSession { stage: RedeemStage::Finished, ..s },
                RedeemAction::Fail(ApiError::TokenAlreadySpent),
            ),
            (RedeemStage::AwaitRecord, RedeemEvent::Recorded) => {
                match s.totals.total_amount.checked_add(tokens[i].denomination) {
                    None => (
                        RedeemSession { stage: RedeemStage::Finished, ..s },
                        RedeemAction::Fail(ApiError::InvalidRequest(RequestProblem::AmountOverflow)),
                    ),
                    Some(total) => RedeemSession::enter_token(
                        tokens,
                        s.now,
                        i + 1,
                        RedeemTotals { accepted_count: s.totals.accepted_count + 1, total_amount: total },
                    ),
                }
            },
            _ => (
                RedeemSession { stage: RedeemStage::Finished, ..s },
                RedeemAction::Fail(ApiError::Internal),
            ),
        };
        *self = next;
        action
    }
}


/// The key under which a token's serial is kept in both stores.
pub open spec fn serial_key(t: Token) -> Seq<char> {
    hex_of(t.serial_number@)
}

/// The contents of the spent-set and of the ledger.
pub struct Stores {
    pub spent: Set<Seq<char>>,
    pub ledger: Set<Seq<char>>,
}

/// What the stores answer to `action`, and what they hold after it, when
/// both work as specified: queries look, the mark is an atomic
/// set-if-absent, and the ledger refuses a serial it already holds.
pub open spec fn serve(stores: Stores, tokens: Seq<Token>, action: RedeemAction) -> (RedeemEvent, Stores) {
    match action {
        RedeemAction::QuerySpentSet(i) => (
            RedeemEvent::Answer(stores.spent.contains(serial_key(tokens[i as int]))),
            stores,
        ),
        RedeemAction::QueryLedger(i) => (
            RedeemEvent::Answer(stores.ledger.contains(serial_key(tokens[i as int]))),
            stores,
        ),
        RedeemAction::MarkSpent(i, _) => {
            let k = serial_key(tokens[i as int]);
            if stores.spent.contains(k) {
                (RedeemEvent::Answer(false), stores)
            } else {
                (RedeemEvent::Answer(true), Stores { spent: stores.spent.insert(k), ..stores })
            }
        },
        RedeemAction::RecordSpent(i) => {
            let k = serial_key(tokens[i as int]);
            if stores.ledger.contains(k) {
                (RedeemEvent::Duplicate, stores)
            } else {
                (RedeemEvent::Recorded, Stores { ledger: stores.ledger.insert(k), ..stores })
            }
        },
        _ => (RedeemEvent::StoreFailed(ApiError::Internal), stores),
    }
}

/// Drives a redemption for at most `fuel` steps against stores that nothing
/// else touches; gives the final action, if one was reached, and the stores.
pub open spec fn run(fuel: nat, s: RedeemSession, a: RedeemAction, inst: Institution, tokens: Seq<Token>, stores: Stores) -> (Option<RedeemAction>, Stores)
    decreases fuel,
{
    match a {
        RedeemAction::Complete(_) => (Some(a), stores),
        RedeemAction::Fail(_) => (Some(a), stores),
        _ => if fuel == 0 {
            (None, stores)
        } else {
            let (ev, next_stores) = serve(stores, tokens, a);
            let (s2, a2) = advance(s, inst, tokens, ev);
            run((fuel - 1) as nat, s2, a2, inst, tokens, next_stores)
        },
    }
}

/// Redeeming `tokens` at time `now` against `stores`, in at most `fuel` steps.
pub open spec fn redeem_against(inst: Institution, tokens: Seq<Token>, now: i64, stores: Stores, fuel: nat) -> (Option<RedeemAction>, Stores) {
    let (s, a) = begin(tokens, now);
    run(fuel, s, a, inst, tokens, stores)
}

/// A token presented twice is accepted once. A valid, unexpired token whose
/// serial neither store holds is accepted, with its face value as the total,
/// and is then in both stores; presented again while unexpired, it is
/// refused as already spent.
pub proof fn lemma_double_spend_rejected(inst: Institution, t: Token, now: i64, later: i64, stores: Stores)
    requires
        inst.wf(),
        token_verdict(inst, t, now) == Ok::<bool, EcashError>(true),
        !t.expired_at(later),
        !stores.spent.contains(serial_key(t)),
        !stores.ledger.contains(serial_key(t)),
    ensures
        ({
            let (first, after) = redeem_against(inst, seq![t], now, stores, 5);
            let (second, _) = redeem_against(inst, seq![t], later, after, 5);
            &&& first == Some(
                RedeemAction::Complete(RedeemTotals { accepted_count: 1, total_amount: t.denomination }),
            )
            &&& after.spent.contains(serial_key(t))
            &&& after.ledger.contains(serial_key(t))
            &&& second == Some(RedeemAction::Fail(ApiError::TokenAlreadySpent))
        }),
{
    let tokens = seq![t];
    assert(tokens[0] == t);
    reveal_with_fuel(run, 6);
}

/// Two valid, unexpired tokens with distinct serials that neither store
/// holds are redeemed together: both are accepted, the total is the sum of
/// their face values, and afterwards each is refused as already spent.
pub proof fn lemma_two_tokens_redeemed_once(
    inst: Institution,
    t1: Token,
    t2: Token,
    now: i64,
    later: i64,
    stores: Stores,
)
    requires
        inst.wf(),
        token_verdict(inst, t1, now) == Ok::<bool, EcashError>(true),
        token_verdict(inst, t2, now) == Ok::<bool, EcashError>(true),
        t1.denomination + t2.denomination <= u64::MAX,
        serial_key(t1) != serial_key(t2),
        !t1.expired_at(later),
        !t2.expired_at(later),
        !stores.spent.contains(serial_key(t1)),
        !stores.ledger.contains(serial_key(t1)),
        !stores.spent.contains(serial_key(t2)),
        !stores.ledger.contains(serial_key(t2)),
    ensures
        ({
            let (both, after) = redeem_against(inst, seq![t1, t2], now, stores, 9);
            let (again1, _) = redeem_against(inst, seq![t1], later, after, 5);
            let (again2, _) = redeem_against(inst, seq![t2], later, after, 5);
            &&& both == Some(
                RedeemAction::Complete(
                    RedeemTotals {
                        accepted_count: 2,
                        total_amount: (t1.denomination + t2.denomination) as u64,
                    },
                ),
            )
            &&& again1 == Some(RedeemAction::Fail(ApiError::TokenAlreadySpent))
            &&& again2 == Some(RedeemAction::Fail(ApiError::TokenAlreadySpent))
        }),
{
    let tokens = seq![t1, t2];
    assert(tokens[0] == t1);
    assert(tokens[1] == t2);
    assert(seq![t1][0] == t1);
    assert(seq![t2][0] == t2);
    reveal_with_fuel(run, 10);
}

/// A verified token with one byte of its signature changed is refused as an
/// invalid signature, and neither store is touched: the serial is not marked.
pub proof fn lemma_flipped_signature_refused(
    inst: Institution,
    genuine: Token,
    tampered: Token,
    now: i64,
    k: int,
    b: u8,
    stores: Stores,
)
    requires
        inst.wf(),
        inst.modulus() > 255,
        token_verdict(inst, genuine, now) == Ok::<bool, EcashError>(true),
        tampered.serial_number@ == genuine.serial_number@,
        tampered.denomination == genuine.denomination,
        tampered.currency@ == genuine.currency@,
        tampered.issued_at == genuine.issued_at,
        tampered.expires_at == genuine.expires_at,
        0 <= k < genuine.signature@.len(),
        b != genuine.signature@[k],
        tampered.signature@ == genuine.signature@.update(k, b),
        !stores.spent.contains(serial_key(tampered)),
        !stores.ledger.contains(serial_key(tampered)),
    ensures
        ({
            let (outcome, after) = redeem_against(inst, seq![tampered], now, stores, 5);
            &&& outcome == Some(RedeemAction::Fail(ApiError::InvalidSignature))
            &&& after == stores
        }),
{
    lemma_flipped_signature_fails(inst, genuine, tampered, now, k, b);
    assert(seq![tampered][0] == tampered);
    reveal_with_fuel(run, 6);
}

/// The spent-set mark is the fence between concurrent redemptions of one
/// serial: of two sessions that both passed the store queries and are about
/// to mark the same serial, the one that marks second is refused as already
/// spent, whatever the order.
pub proof fn lemma_concurrent_mark_fence(
    inst: Institution,
    first: RedeemSession,
    first_tokens: Seq<Token>,
    second: RedeemSession,
    second_tokens: Seq<Token>,
    stores: Stores,
)
    requires
        first.stage == RedeemStage::AwaitMark,
        second.stage == RedeemStage::AwaitMark,
        first.wf(first_tokens),
        second.wf(second_tokens),
        serial_key(first_tokens[first.index as int]) == serial_key(second_tokens[second.index as int]),
    ensures
        ({
            let (_, after_first) = serve(
                stores,
                first_tokens,
                RedeemAction::MarkSpent(first.index, spent_ttl(inst)),
            );
            let (ev, _) = serve(
                after_first,
                second_tokens,
                RedeemAction::MarkSpent(second.index, spent_ttl(inst)),
            );
            &&& ev == RedeemEvent::Answer(false)
            &&& advance(second, inst, second_tokens, ev).1 == RedeemAction::Fail(
                ApiError::TokenAlreadySpent,
            )
        }),
{
}

/// An expired token is refused as expired before any store is asked or its
/// signature checked, wherever it stands in the request.
pub proof fn lemma_expired_token_rejected(tokens: Seq<Token>, now: i64, index: usize, totals: RedeemTotals)
    requires
        index < tokens.len(),
        tokens[index as int].expired_at(now),
    ensures
        enter(tokens, now, index, totals).1 == RedeemAction::Fail(ApiError::TokenExpired),
{
}

} // verus!
