use ecash::keys::PrivateKey;
use ecash::protocol::{Institution, Wallet};
use ecash::server::{
    sign_withdrawal, verify_report, ApiError, RedeemAction, RedeemEvent, RedeemSession,
    RedeemTotals, RequestProblem, WithdrawRequest,
};
use ecash::token::{BlindedToken, Token, TokenMetadata};
use ecash::error::EcashError;
use ecash::client::balance;
use std::collections::HashSet;

const NOW: i64 = 1_700_000_000;

struct Stores {
    spent: HashSet<String>,
    ledger: HashSet<String>,
}

fn stores() -> Stores {
    Stores { spent: HashSet::new(), ledger: HashSet::new() }
}

fn serve(stores: &mut Stores, tokens: &[Token], action: RedeemAction) -> Option<RedeemEvent> {
    match action {
        RedeemAction::QuerySpentSet(i) => {
            Some(RedeemEvent::Answer(stores.spent.contains(&tokens[i].serial_hex())))
        }
        RedeemAction::QueryLedger(i) => {
            Some(RedeemEvent::Answer(stores.ledger.contains(&tokens[i].serial_hex())))
        }
        RedeemAction::MarkSpent(i, _) => {
            Some(RedeemEvent::Answer(stores.spent.insert(tokens[i].serial_hex())))
        }
        RedeemAction::RecordSpent(i) => {
            if stores.ledger.insert(tokens[i].serial_hex()) {
                Some(RedeemEvent::Recorded)
            } else {
                Some(RedeemEvent::Duplicate)
            }
        }
        RedeemAction::Complete(_) | RedeemAction::Fail(_) => None,
    }
}

fn redeem(inst: &Institution, tokens: &[Token], now: i64, stores: &mut Stores) -> RedeemAction {
    let (mut session, mut action) = RedeemSession::start(tokens, now);
    while let Some(event) = serve(stores, tokens, action) {
        action = session.step(inst, tokens, event);
    }
    action
}

fn setup() -> (Institution, Wallet) {
    let key = PrivateKey::generate(768).unwrap();
    let public_key = key.to_public_key();
    let inst = Institution::new(
        key,
        "inst_test".to_string(),
        "key_001".to_string(),
        vec![10, 50, 100],
        90,
    );
    let wallet = Wallet::new(public_key, "inst_test".to_string(), "USD".to_string(), vec![10, 50, 100]);
    (inst, wallet)
}

fn withdraw(inst: &Institution, wallet: &Wallet, amount: u64, denomination: u64) -> Vec<Token> {
    let prepared = wallet.prepare_withdrawal(amount, denomination).unwrap();
    let (blinded, metadata): (Vec<BlindedToken>, Vec<TokenMetadata>) = prepared.into_iter().unzip();
    let request = WithdrawRequest { amount, denomination, blinded_tokens: blinded };
    let sigs = sign_withdrawal(inst, &request).unwrap();
    wallet.finalize_withdrawal(sigs, metadata, inst.expiry_time_at(NOW)).unwrap()
}

#[test]
fn withdraw_then_redeem_twice_is_refused() {
    let (inst, wallet) = setup();
    let tokens = withdraw(&inst, &wallet, 100, 50);
    assert_eq!(tokens.len(), 2);
    let mut st = stores();
    let first = redeem(&inst, &tokens, NOW, &mut st);
    assert_eq!(
        first,
        RedeemAction::Complete(RedeemTotals { accepted_count: 2, total_amount: 100 })
    );
    for t in &tokens {
        let again = redeem(&inst, std::slice::from_ref(t), NOW + 10, &mut st);
        assert_eq!(again, RedeemAction::Fail(ApiError::TokenAlreadySpent));
        assert_eq!(ApiError::TokenAlreadySpent.status_code(), 409);
    }
}

#[test]
fn withdrawal_rounds_up_to_whole_tokens() {
    let (inst, wallet) = setup();
    let prepared = wallet.prepare_withdrawal(75, 50).unwrap();
    assert_eq!(prepared.len(), 2);
    let (blinded, metadata): (Vec<BlindedToken>, Vec<TokenMetadata>) = prepared.into_iter().unzip();
    let request = WithdrawRequest { amount: 75, denomination: 50, blinded_tokens: blinded };
    let sigs = sign_withdrawal(&inst, &request).unwrap();
    assert_eq!(sigs.len(), 2);
    assert!(sigs.iter().all(|s| s.key_id == "key_001"));
    let tokens = wallet.finalize_withdrawal(sigs, metadata, inst.expiry_time_at(NOW)).unwrap();
    let faces: Vec<u64> = tokens.iter().map(|t| t.denomination).collect();
    assert_eq!(balance(&faces), 100);
}

#[test]
fn unadvertised_denomination_is_refused() {
    let (inst, wallet) = setup();
    assert_eq!(wallet.prepare_withdrawal(50, 25).unwrap_err(), EcashError::InvalidDenomination);
    let prepared = wallet.prepare_withdrawal(100, 50).unwrap();
    let (mut blinded, _): (Vec<BlindedToken>, Vec<TokenMetadata>) = prepared.into_iter().unzip();
    for b in blinded.iter_mut() {
        b.denomination = 25;
    }
    assert_eq!(
        inst.sign_blinded_token(&blinded[0]).unwrap_err(),
        EcashError::InvalidDenomination
    );
    let request = WithdrawRequest { amount: 50, denomination: 25, blinded_tokens: blinded };
    let err = sign_withdrawal(&inst, &request).unwrap_err();
    assert_eq!(err, ApiError::InvalidDenomination(25));
    assert_eq!(err.status_code(), 400);
    assert_eq!(err.message(), "Invalid denomination: 25");
}

#[test]
fn wrong_token_count_is_refused() {
    let (inst, wallet) = setup();
    let prepared = wallet.prepare_withdrawal(100, 50).unwrap();
    let (mut blinded, _): (Vec<BlindedToken>, Vec<TokenMetadata>) = prepared.into_iter().unzip();
    blinded.truncate(1);
    let request = WithdrawRequest { amount: 100, denomination: 50, blinded_tokens: blinded };
    let err = sign_withdrawal(&inst, &request).unwrap_err();
    assert_eq!(
        err,
        ApiError::InvalidRequest(RequestProblem::CountMismatch { expected: 2, amount: 100, denomination: 50 })
    );
    assert_eq!(err.status_code(), 400);
    assert_eq!(err.message(), "Expected 2 tokens for amount 100 with denomination 50");
}

#[test]
fn empty_and_mixed_withdrawals_are_refused() {
    let (inst, wallet) = setup();
    let empty = WithdrawRequest { amount: 100, denomination: 50, blinded_tokens: Vec::new() };
    assert_eq!(
        sign_withdrawal(&inst, &empty).unwrap_err(),
        ApiError::InvalidRequest(RequestProblem::NoTokens)
    );
    let prepared = wallet.prepare_withdrawal(100, 50).unwrap();
    let (mut blinded, _): (Vec<BlindedToken>, Vec<TokenMetadata>) = prepared.into_iter().unzip();
    blinded[1].denomination = 10;
    let mixed = WithdrawRequest { amount: 100, denomination: 50, blinded_tokens: blinded };
    assert_eq!(
        sign_withdrawal(&inst, &mixed).unwrap_err(),
        ApiError::InvalidRequest(RequestProblem::MixedDenominations)
    );
}

#[test]
fn flipped_signature_bit_is_refused_and_not_marked() {
    let (inst, wallet) = setup();
    let mut tokens = withdraw(&inst, &wallet, 50, 50);
    let last = tokens[0].signature.len() - 1;
    tokens[0].signature[last] ^= 1;
    let mut st = stores();
    let outcome = redeem(&inst, &tokens, NOW, &mut st);
    assert_eq!(outcome, RedeemAction::Fail(ApiError::InvalidSignature));
    assert_eq!(ApiError::InvalidSignature.status_code(), 400);
    assert!(st.spent.is_empty());
    assert!(st.ledger.is_empty());
}

#[test]
fn concurrent_redemptions_accept_exactly_one() {
    let (inst, wallet) = setup();
    let tokens = withdraw(&inst, &wallet, 10, 10);
    let mut st = stores();
    let (mut a, mut act_a) = RedeemSession::start(&tokens, NOW);
    let (mut b, mut act_b) = RedeemSession::start(&tokens, NOW);
    // both pass the two store queries before either marks
    for _ in 0..2 {
        let ev_a = serve(&mut st, &tokens, act_a).unwrap();
        act_a = a.step(&inst, &tokens, ev_a);
        let ev_b = serve(&mut st, &tokens, act_b).unwrap();
        act_b = b.step(&inst, &tokens, ev_b);
    }
    assert_eq!(act_a, RedeemAction::MarkSpent(0, 7776000));
    assert_eq!(act_b, RedeemAction::MarkSpent(0, 7776000));
    let ev_b = serve(&mut st, &tokens, act_b).unwrap();
    act_b = b.step(&inst, &tokens, ev_b);
    let ev_a = serve(&mut st, &tokens, act_a).unwrap();
    act_a = a.step(&inst, &tokens, ev_a);
    assert_eq!(act_a, RedeemAction::Fail(ApiError::TokenAlreadySpent));
    let ev_b = serve(&mut st, &tokens, act_b).unwrap();
    act_b = b.step(&inst, &tokens, ev_b);
    assert_eq!(
        act_b,
        RedeemAction::Complete(RedeemTotals { accepted_count: 1, total_amount: 10 })
    );
}

#[test]
fn expired_token_is_refused_everywhere() {
    let (inst, wallet) = setup();
    let tokens = withdraw(&inst, &wallet, 10, 10);
    let expiry = tokens[0].expires_at;
    let mut st = stores();
    let outcome = redeem(&inst, &tokens, expiry, &mut st);
    assert_eq!(outcome, RedeemAction::Fail(ApiError::TokenExpired));
    assert!(st.spent.is_empty());
    let report = verify_report(&inst, &tokens[0], expiry, false, false);
    assert!(!report.valid);
    assert!(report.expired);
    assert_eq!(report.message, "Token has expired");
    assert_eq!(inst.verify_token_at(&tokens[0], expiry), Ok(false));
}

#[test]
fn verify_report_states() {
    let (inst, wallet) = setup();
    let tokens = withdraw(&inst, &wallet, 10, 10);
    let ok = verify_report(&inst, &tokens[0], NOW, false, false);
    assert!(ok.valid && !ok.expired && !ok.spent);
    assert_eq!(ok.message, "Token is valid");
    let spent = verify_report(&inst, &tokens[0], NOW, false, true);
    assert!(!spent.valid && spent.spent);
    assert_eq!(spent.message, "Token has already been spent");
    let mut bad = tokens[0].clone();
    bad.signature[0] ^= 0x80;
    let invalid = verify_report(&inst, &bad, NOW, false, false);
    assert!(!invalid.valid);
    assert_eq!(invalid.message, "Invalid token signature");
}

#[test]
fn tampered_fields_fail_verification() {
    let (inst, wallet) = setup();
    let tokens = withdraw(&inst, &wallet, 50, 50);
    let t = &tokens[0];
    assert_eq!(inst.verify_token_at(t, NOW), Ok(true));

    let mut serial = t.clone();
    serial.serial_number[3] ^= 0x01;
    assert_eq!(inst.verify_token_at(&serial, NOW), Ok(false));

    let mut denomination = t.clone();
    denomination.denomination = 100;
    assert_eq!(inst.verify_token_at(&denomination, NOW), Ok(false));

    let mut currency = t.clone();
    currency.currency = "EUR".to_string();
    assert_eq!(inst.verify_token_at(&currency, NOW), Ok(false));

    let mut issued = t.clone();
    issued.issued_at ^= 0x100;
    assert_eq!(inst.verify_token_at(&issued, NOW), Ok(false));

    let mut unknown = t.clone();
    unknown.denomination = 51;
    assert_eq!(
        inst.verify_token_at(&unknown, NOW),
        Err(EcashError::InvalidDenomination)
    );
}

#[test]
fn redeem_without_tokens_is_refused() {
    let (inst, _) = setup();
    let mut st = stores();
    let outcome = redeem(&inst, &[], NOW, &mut st);
    assert_eq!(outcome, RedeemAction::Fail(ApiError::InvalidRequest(RequestProblem::NoTokens)));
}

#[test]
fn failing_store_stops_redemption() {
    let (inst, wallet) = setup();
    let tokens = withdraw(&inst, &wallet, 10, 10);
    let (mut s, action) = RedeemSession::start(&tokens, NOW);
    assert_eq!(action, RedeemAction::QuerySpentSet(0));
    let next = s.step(&inst, &tokens, RedeemEvent::StoreFailed(ApiError::Cache));
    assert_eq!(next, RedeemAction::Fail(ApiError::Cache));
    assert_eq!(ApiError::Cache.status_code(), 500);
    assert_eq!(ApiError::Database.status_code(), 500);
}

#[test]
fn ledger_duplicate_counts_as_spent() {
    let (inst, wallet) = setup();
    let tokens = withdraw(&inst, &wallet, 10, 10);
    let mut st = stores();
    st.ledger.insert(tokens[0].serial_hex());
    let outcome = redeem(&inst, &tokens, NOW, &mut st);
    assert_eq!(outcome, RedeemAction::Fail(ApiError::TokenAlreadySpent));
    let (mut s, _) = RedeemSession::start(&tokens, NOW);
    s.step(&inst, &tokens, RedeemEvent::Answer(false));
    s.step(&inst, &tokens, RedeemEvent::Answer(false));
    s.step(&inst, &tokens, RedeemEvent::Answer(true));
    let last = s.step(&inst, &tokens, RedeemEvent::Duplicate);
    assert_eq!(last, RedeemAction::Fail(ApiError::TokenAlreadySpent));
}
