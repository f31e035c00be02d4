use ecash::server::{ApiError, RequestProblem};
use ecash::client::{balance, select_tokens, wallet_from_key, ClientError, TokenStatus};
use ecash::crypto::BlindSigner;
use ecash::error::EcashError;
use ecash::keys::{PrivateKey, PublicKey};
use ecash::protocol::{count_for, Institution, Wallet};
use ecash::token::{be_fixed_bytes, canonical_message, BlindSignature, Token, TokenMetadata};

fn sample_token(serial: Vec<u8>) -> Token {
    Token {
        serial_number: serial,
        denomination: 10,
        currency: "USD".to_string(),
        signature: vec![1, 2, 3],
        issued_at: 0,
        expires_at: 100,
        institution_id: "inst".to_string(),
        key_id: "k".to_string(),
    }
}

#[test]
fn serial_hex_is_lower_case_hex() {
    let t = sample_token(vec![0xde, 0xad, 0x00, 0x0f]);
    assert_eq!(t.serial_hex(), "dead000f");
    assert_eq!(sample_token(vec![0xab, 0x01]).serial_hex(), "ab01");
    assert_eq!(sample_token(vec![]).serial_hex(), "");
}

#[test]
fn canonical_message_layout() {
    let m = canonical_message(&[7, 8], 50, "USD", 1_700_000_000);
    let mut expected = vec![7u8, 8];
    expected.extend_from_slice(&50u64.to_be_bytes());
    expected.extend_from_slice(b"USD");
    expected.extend_from_slice(&1_700_000_000i64.to_be_bytes());
    assert_eq!(m, expected);
    let negative = canonical_message(&[], 1, "", -2);
    let mut expected = 1u64.to_be_bytes().to_vec();
    expected.extend_from_slice(&(-2i64).to_be_bytes());
    assert_eq!(negative, expected);
    assert_eq!(be_fixed_bytes(0x0102, 3), vec![0, 1, 2]);
}

#[test]
fn expiry_checks_are_inclusive() {
    let t = sample_token(vec![1; 32]);
    assert!(!t.is_expired_at(99));
    assert!(t.is_expired_at(100));
    assert!(t.is_expired_at(101));
}

#[test]
fn token_counts_round_up() {
    assert_eq!(count_for(100, 50), 2);
    assert_eq!(count_for(75, 50), 2);
    assert_eq!(count_for(0, 50), 0);
    assert_eq!(count_for(u64::MAX, 1), u64::MAX);
    assert_eq!(count_for(u64::MAX, 2), u64::MAX / 2 + 1);
}

#[test]
fn token_status_text() {
    assert_eq!(TokenStatus::from_str("spent"), TokenStatus::Spent);
    assert_eq!(TokenStatus::from_str("pending"), TokenStatus::Pending);
    assert_eq!(TokenStatus::from_str("available"), TokenStatus::Available);
    assert_eq!(TokenStatus::from_str("bogus"), TokenStatus::Available);
    for s in [TokenStatus::Available, TokenStatus::Spent, TokenStatus::Pending] {
        assert_eq!(TokenStatus::from_str(s.as_str()), s);
    }
    assert_eq!(TokenStatus::Spent.as_str(), "spent");
}

#[test]
fn token_selection_takes_shortest_prefix() {
    assert_eq!(select_tokens(&[10, 50, 100], 55).unwrap(), (2, 60));
    assert_eq!(select_tokens(&[10, 50, 100], 10).unwrap(), (1, 10));
    assert_eq!(select_tokens(&[10, 50, 100], 0).unwrap(), (0, 0));
    assert!(matches!(select_tokens(&[], 5), Err(ClientError::NoTokensAvailable)));
    match select_tokens(&[10, 50], 100) {
        Err(ClientError::InsufficientBalance { required, available }) => {
            assert_eq!(required, 100);
            assert_eq!(available, 60);
        }
        other => panic!("unexpected {:?}", other),
    }
}

#[test]
fn balance_sums_and_saturates() {
    assert_eq!(balance(&[]), 0);
    assert_eq!(balance(&[10, 50, 100]), 160);
    assert_eq!(balance(&[u64::MAX, 1]), u64::MAX);
}

#[test]
fn public_key_bounds() {
    assert!(PublicKey::new(vec![1], vec![3]).is_err());
    assert!(PublicKey::new(vec![7], vec![1]).is_err());
    assert_eq!(PublicKey::new(vec![0, 1], vec![3]).unwrap_err(), EcashError::InvalidKey);
    assert!(PublicKey::new(vec![2], vec![2]).is_ok());
}

#[test]
fn wallet_from_advertised_key() {
    let w = wallet_from_key("3233", "17", "inst".to_string(), "USD".to_string(), vec![10]).unwrap();
    assert_eq!(w.user.public_key.n, vec![0x0c, 0xa1]);
    assert_eq!(w.user.public_key.e, vec![17]);
    assert_eq!(w.denominations, vec![10]);
    assert!(matches!(
        wallet_from_key("abc", "17", "i".to_string(), "USD".to_string(), vec![]),
        Err(ClientError::InvalidResponse(_))
    ));
    assert!(matches!(
        wallet_from_key("1", "17", "i".to_string(), "USD".to_string(), vec![]),
        Err(ClientError::Core(EcashError::InvalidKey))
    ));
}

#[test]
fn wallet_refuses_unusable_denominations() {
    let key = PublicKey::new(vec![0x0c, 0xa1], vec![17]).unwrap();
    let with_zero = Wallet::new(key.clone(), "i".to_string(), "USD".to_string(), vec![0, 10]);
    assert_eq!(with_zero.prepare_withdrawal(10, 0).unwrap_err(), EcashError::InvalidDenomination);
    let known = Wallet::new(key, "i".to_string(), "USD".to_string(), vec![10, 50]);
    assert_eq!(known.prepare_withdrawal(10, 25).unwrap_err(), EcashError::InvalidDenomination);
    assert_eq!(known.prepare_withdrawal(0, 10).unwrap().len(), 0);
}

#[test]
fn finalize_checks_pairing_and_signatures() {
    let signer = BlindSigner::new(512).unwrap();
    let other = BlindSigner::new(512).unwrap();
    let wallet = Wallet::new(signer.public_key().clone(), "i".to_string(), "USD".to_string(), vec![10]);
    let prepared = wallet.prepare_withdrawal(20, 10).unwrap();
    let (blinded, metadata): (Vec<_>, Vec<TokenMetadata>) = prepared.into_iter().unzip();
    let good: Vec<BlindSignature> = blinded
        .iter()
        .map(|b| BlindSignature {
            signature: signer.sign_blinded(&b.blinded_message).unwrap(),
            key_id: "k1".to_string(),
        })
        .collect();
    assert_eq!(
        wallet.finalize_withdrawal(good[..1].to_vec(), metadata.clone(), 5).unwrap_err(),
        EcashError::ProtocolMismatch
    );
    let forged: Vec<BlindSignature> = blinded
        .iter()
        .map(|b| BlindSignature {
            signature: other.sign_blinded(&b.blinded_message).unwrap(),
            key_id: "k1".to_string(),
        })
        .collect();
    assert_eq!(
        wallet.finalize_withdrawal(forged, metadata.clone(), 5).unwrap_err(),
        EcashError::InvalidSignature
    );
    let tokens = wallet.finalize_withdrawal(good, metadata.clone(), 5).unwrap();
    assert_eq!(tokens.len(), 2);
    for (t, m) in tokens.iter().zip(metadata.iter()) {
        assert_eq!(t.serial_number, m.serial_number);
        assert_eq!(t.serial_number.len(), 32);
        assert_eq!(t.issued_at, m.issued_at);
        assert_eq!(t.expires_at, 5);
        assert_eq!(t.key_id, "k1");
        assert_eq!(t.institution_id, "i");
    }
}

#[test]
fn institution_expiry_and_lookups() {
    let key = PrivateKey::generate(512).unwrap();
    let inst = Institution::new(key, "inst".to_string(), "key".to_string(), vec![10, 50], 90);
    assert_eq!(inst.validity_seconds, 90 * 86400);
    assert_eq!(inst.expiry_time_at(1000), 1000 + 90 * 86400);
    assert_eq!(inst.expiry_time_at(i64::MAX - 5), i64::MAX);
    assert!(inst.is_valid_denomination(50));
    assert!(!inst.is_valid_denomination(25));
    assert_eq!(inst.validate_denomination(25), Err(EcashError::InvalidDenomination));
    assert_eq!(inst.institution_id(), "inst");
}

#[test]
fn endpoint_error_texts() {
    assert_eq!(ApiError::TokenAlreadySpent.message(), "Token already spent");
    assert_eq!(ApiError::Ecash(EcashError::InvalidKey).message(), "Invalid key");
    assert_eq!(ApiError::InvalidRequest(RequestProblem::NoTokens).message(), "No tokens provided");
    assert_eq!(ApiError::InvalidDenomination(0).message(), "Invalid denomination: 0");
    assert_eq!(ApiError::Internal.message(), "Internal server error");
}

#[test]
fn error_messages() {
    assert_eq!(EcashError::InvalidSignature.message(), "Invalid signature");
    assert_eq!(EcashError::TokenExpired.message(), "Token expired");
    assert_eq!(EcashError::InvalidDenomination.message(), "Invalid denomination");
}

#[test]
fn blindings_of_one_message_are_unrelated() {
    let signer = BlindSigner::new(512).unwrap();
    let user = ecash::crypto::BlindUser::new(signer.public_key().clone());
    let message = b"same message";
    let (b1, r1) = user.blind_message(message).unwrap();
    let (b2, r2) = user.blind_message(message).unwrap();
    assert_ne!(b1, b2);
    assert_ne!(r1, r2);
    let s1 = user.unblind_signature(&signer.sign_blinded(&b1).unwrap(), &r1).unwrap();
    let s2 = user.unblind_signature(&signer.sign_blinded(&b2).unwrap(), &r2).unwrap();
    assert_eq!(s1, s2);
    assert_ne!(s1, b1);
    assert_ne!(s1, signer.sign_blinded(&b1).unwrap());
    assert!(user.verify_signature(message, &s1));
}
