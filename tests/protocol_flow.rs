use ecash::crypto::{BlindSigner, BlindUser};
use ecash::keys::PrivateKey;
use ecash::protocol::{Institution, Wallet};
use ecash::token::{BlindSignature, BlindedToken, TokenMetadata};

#[test]
fn test_blind_signature_flow() {
    let signer = BlindSigner::new(2048).unwrap();
    let user = BlindUser::new(signer.public_key().clone());

    let message = b"test message";

    let (blinded, blinding_factor) = user.blind_message(message).unwrap();
    let blind_sig = signer.sign_blinded(&blinded).unwrap();
    let signature = user
        .unblind_signature(&blind_sig, &blinding_factor)
        .unwrap();

    assert!(user.verify_signature(message, &signature));
}

#[test]
fn test_full_withdrawal_flow() {
    let private_key = PrivateKey::generate(2048).unwrap();
    let public_key = private_key.to_public_key();

    let institution = Institution::new(
        private_key,
        "inst_test".to_string(),
        "key_001".to_string(),
        vec![10, 50, 100],
        90,
    );

    let wallet = Wallet::new(
        public_key,
        "inst_test".to_string(),
        "USD".to_string(),
        vec![10, 50, 100],
    );

    let tokens_to_prepare = wallet.prepare_withdrawal(100, 50).unwrap();
    let (blinded_tokens, metadata): (Vec<BlindedToken>, Vec<TokenMetadata>) =
        tokens_to_prepare.into_iter().unzip();

    let blind_signatures: Vec<BlindSignature> = blinded_tokens
        .iter()
        .map(|bt| institution.sign_blinded_token(bt).unwrap())
        .collect();

    let tokens = wallet
        .finalize_withdrawal(blind_signatures, metadata, institution.expiry_time())
        .unwrap();

    for token in &tokens {
        assert!(institution.verify_token(token).unwrap());
    }
}
