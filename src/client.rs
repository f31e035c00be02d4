//! The wallet client's own decisions: which stored tokens pay an amount,
//! the balance, the stored status of a token, and reading the issuer's
//! advertised key.

use crate::bignum::{decimal_value, is_decimal, parse_decimal};
use crate::keys::PublicKey;
use crate::protocol::Wallet;
use crate::error::EcashError;
use vstd::prelude::*;
use vstd::utf8::encode_utf8_decode_utf8;

verus! {

/// What can go wrong in the wallet client.
#[derive(Debug, Clone)]
pub enum ClientError {
    Http,
    Core(EcashError),
    Storage,
    Serialization,
    InsufficientBalance { required: u64, available: u64 },
    NoTokensAvailable,
    InvalidResponse(String),
    ApiError(String),
    InvalidDenomination(u64),
    QrCode(String),
}

/// The body of an issuer's error answer.
#[derive(Debug, Clone)]
pub struct ApiErrorResponse {
    pub error: String,
}

/// Where a stored token stands.
#[derive(Debug, Clone, Copy, PartialEq, Eq, Structural)]
pub enum TokenStatus {
    Available,
    Spent,
    Pending,
}

/// The text a status is stored as.
pub open spec fn status_text(status: TokenStatus) -> Seq<char> {
    match status {
        TokenStatus::Available => "available"@,
        TokenStatus::Spent => "spent"@,
        TokenStatus::Pending => "pending"@,
    }
}

/// The status that stored text names; unknown text counts as available.
pub open spec fn status_named(s: Seq<char>) -> TokenStatus {
    if s == "spent"@ {
        TokenStatus::Spent
    } else if s == "pending"@ {
        TokenStatus::Pending
    } else {
        TokenStatus::Available
    }
}

fn bytes_equal(a: &[u8], b: &[u8]) -> (r: bool)
    ensures
        r == (a@ == b@),
{
    if a.len() != b.len() {
        return false;
    }
    let mut i: usize = 0;
    while i < a.len()
        invariant
            a@.len() == b@.len(),
            i <= a@.len(),
            forall|j: int| 0 <= j < i ==> a@[j] == b@[j],
        decreases a@.len() - i,
    {
        if a[i] != b[i] {
            return false;
        }
        i = i + 1;
    }
    assert(a@ =~= b@);
    true
}

fn text_equal(a: &str, b: &str) -> (r: bool)
    ensures
        r == (a@ == b@),
{
    let eq = bytes_equal(a.as_bytes(), b.as_bytes());
    proof {
        encode_utf8_decode_utf8(a@);
        encode_utf8_decode_utf8(b@);
    }
    eq
}

impl TokenStatus {
    /// The text the status is stored as.
    pub fn as_str(&self) -> (r: &'static str)
        ensures
            r@ == status_text(*self),
            status_named(r@) == *self,
    {
        proof {
            reveal_strlit("available");
            reveal_strlit("spent");
            reveal_strlit("pending");
            assert("available"@.len() != "spent"@.len());
            assert("available"@.len() != "pending"@.len());
            assert("spent"@.len() != "pending"@.len());
        }
        match self {
            TokenStatus::Available => "available",
            TokenStatus::Spent => "spent",
            TokenStatus::Pending => "pending",
        }
    }

    /// The status that `s` names; unknown text reads as available.
    pub fn from_str(s: &str) -> (r: TokenStatus)
        ensures
            r == status_named(s@),
    {
        if text_equal(s, "spent") {
            TokenStatus::Spent
        } else if text_equal(s, "pending") {
            TokenStatus::Pending
        } else {
            TokenStatus::Available
        }
    }
}

/// Sum of the first `k` face values.
pub open spec fn prefix_sum(denominations: Seq<u64>, k: int) -> nat
    decreases k,
{
    if k <= 0 {
        0
    } else {
        prefix_sum(denominations, k - 1) + denominations[k - 1] as nat
    }
}

/// `x` held to the range of `u64`.
pub open spec fn cap_u64(x: nat) -> u64 {
    if x > u64::MAX {
        u64::MAX
    } else {
        x as u64
    }
}

/// The sum of the face values of `denominations`, held to the range of `u64`.
pub fn balance(denominations: &[u64]) -> (r: u64)
    ensures
        r == cap_u64(prefix_sum(denominations@, denominations@.len() as int)),
{
    let mut total: u64 = 0;
    let mut i: usize = 0;
    while i < denominations.len()
        invariant
            i <= denominations@.len(),
            total == cap_u64(prefix_sum(denominations@, i as int)),
        decreases denominations@.len() - i,
    {
        total = total.saturating_add(denominations[i]);
        i = i + 1;
    }
    total
}

/// Picks the tokens that pay `amount`: the shortest run from the front of
/// the available tokens (given by their face values, oldest first) whose sum
/// reaches `amount`. Gives the number of tokens taken and their sum (held to
/// the range of `u64`). Fails with `NoTokensAvailable` when there are none,
/// and with `InsufficientBalance` when all of them fall short.
pub fn select_tokens(denominations: &[u64], amount: u64) -> (r: Result<(usize, u64), ClientError>)
    ensures
        denominations@.len() == 0 <==> r matches Err(ClientError::NoTokensAvailable),
        r matches Ok((k, total)) ==> {
            &&& k <= denominations@.len()
            &&& prefix_sum(denominations@, k as int) >= amount
            &&& forall|j: int| 0 <= j < k ==> #[trigger] prefix_sum(denominations@, j) < amount
            &&& total == cap_u64(prefix_sum(denominations@, k as int))
        },
        r matches Err(ClientError::InsufficientBalance { required, available }) ==> {
            &&& required == amount
            &&& available as nat == prefix_sum(denominations@, denominations@.len() as int)
        },
        denominations@.len() > 0 && prefix_sum(denominations@, denominations@.len() as int) < amount
            <==> r matches Err(ClientError::InsufficientBalance { .. }),
        r is Ok || r matches Err(ClientError::NoTokensAvailable) || r matches Err(
            ClientError::InsufficientBalance { .. },
        ),
{
    if denominations.len() == 0 {
        return Err(ClientError::NoTokensAvailable);
    }
    let mut total: u64 = 0;
    let mut k: usize = 0;
    while k < denominations.len() && total < amount
        invariant
            k <= denominations@.len(),
            total == cap_u64(prefix_sum(denominations@, k as int)),
            forall|j: int| 0 <= j < k ==> #[trigger] prefix_sum(denominations@, j) < amount,
            k > 0 ==> prefix_sum(denominations@, k - 1) < amount,
        decreases denominations@.len() - k,
    {
        proof {
            assert(prefix_sum(denominations@, k as int) < amount);
        }
        total = total.saturating_add(denominations[k]);
        k = k + 1;
    }
    if total < amount {
        proof {
            lemma_prefix_sum_below(denominations@, k as int, amount);
        }
        return Err(ClientError::InsufficientBalance { required: amount, available: total });
    }
    proof {
        lemma_prefix_sum_monotone(denominations@, k as int, denominations@.len() as int);
    }
    Ok((k, total))
}

proof fn lemma_prefix_sum_monotone(ds: Seq<u64>, k: int, m: int)
    requires
        0 <= k <= m,
    ensures
        prefix_sum(ds, k) <= prefix_sum(ds, m),
    decreases m - k,
{
    if k < m {
        lemma_prefix_sum_monotone(ds, k, m - 1);
    }
}

proof fn lemma_prefix_sum_below(ds: Seq<u64>, k: int, amount: u64)
    requires
        0 <= k <= ds.len(),
        cap_u64(prefix_sum(ds, k)) < amount,
    ensures
        k == ds.len() ==> prefix_sum(ds, k) < amount,
{
}

/// A wallet for the issuer whose advertised key is given in decimal text:
/// refused with `InvalidResponse` when either number does not read, and
/// with the core error when the key is unusable.
pub fn wallet_from_key(
    public_key_n: &str,
    public_key_e: &str,
    institution_id: String,
    currency: String,
    denominations: Vec<u64>,
) -> (r: Result<Wallet, ClientError>)
    ensures
        r matches Ok(w) ==> {
            &&& w.wf()
            &&& w.institution_id == institution_id
            &&& w.currency == currency
            &&& w.denominations == denominations
        },
        is_decimal(public_key_n@) && is_decimal(public_key_e@) ==> (r is Ok <==> (decimal_value(
            public_key_n@,
        ) > 1 && decimal_value(public_key_e@) >= 2)),
        r matches Ok(w) ==> (is_decimal(public_key_n@) && is_decimal(public_key_e@) ==> {
            &&& w.user.public_key.modulus() == decimal_value(public_key_n@)
            &&& w.user.public_key.exponent() == decimal_value(public_key_e@)
        }),
{
    let n = match parse_decimal(public_key_n) {
        Some(n) => n,
        None => return Err(ClientError::InvalidResponse("Invalid public key N".to_string())),
    };
    let e = match parse_decimal(public_key_e) {
        Some(e) => e,
        None => return Err(ClientError::InvalidResponse("Invalid public key E".to_string())),
    };
    match PublicKey::new(n, e) {
        Ok(key) => Ok(Wallet::new(key, institution_id, currency, denominations)),
        Err(err) => Err(ClientError::Core(err)),
    }
}

} // verus!
