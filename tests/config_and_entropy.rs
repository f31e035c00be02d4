use ecash::config::parse_denominations;
use ecash::crypto::{BlindSigner, BlindUser};
use ecash::keys::PrivateKey;
use ecash::protocol::{Institution, Wallet};
use ecash::token::Token;

#[test]
fn denominations_list_reads_numbers() {
    assert_eq!(parse_denominations("10,50,100"), vec![10, 50, 100]);
    assert_eq!(parse_denominations(" 10 , x, +5,,18446744073709551616, 7\u{a0}"), vec![10, 5, 7]);
    assert_eq!(parse_denominations("18446744073709551615"), vec![u64::MAX]);
    assert_eq!(parse_denominations(""), Vec::<u64>::new());
    assert_eq!(parse_denominations("-5,+,1 0"), Vec::<u64>::new());
}

#[test]
fn serials_are_fresh_and_stamped_now() {
    let key = PrivateKey::generate(512).unwrap();
    let wallet = Wallet::new(key.to_public_key(), "i".to_string(), "USD".to_string(), vec![10]);
    let prepared = wallet.prepare_withdrawal(30, 10).unwrap();
    assert_eq!(prepared.len(), 3);
    let before = chrono::Utc::now().timestamp();
    for (bt, meta) in &prepared {
        assert_eq!(meta.serial_number.len(), 32);
        assert!((meta.issued_at - before).abs() < 60);
        assert_ne!(bt.blinded_message, meta.serial_number);
    }
    assert_ne!(prepared[0].1.serial_number, prepared[1].1.serial_number);
    assert_ne!(prepared[0].1.blinding_factor, prepared[1].1.blinding_factor);
}

#[test]
fn clock_stamps_new_tokens() {
    let t = Token::new(vec![1; 32], 10, "USD".to_string(), vec![1], 5, "i".to_string(), "k".to_string());
    assert!((t.issued_at - chrono::Utc::now().timestamp()).abs() < 60);
    assert!(t.is_expired());
    let key = PrivateKey::generate(512).unwrap();
    let inst = Institution::new(key, "i".to_string(), "k".to_string(), vec![10], 1);
    assert!((inst.expiry_time() - chrono::Utc::now().timestamp() - 86400).abs() < 60);
}

#[test]
fn generated_key_has_requested_size_and_inverse_exponents() {
    let key = PrivateKey::generate(512).unwrap();
    assert_eq!(key.e, vec![0x01, 0x00, 0x01]);
    assert_eq!(key.n.len(), 64);
    assert!(key.n[0] & 0x80 != 0);
    let signer = BlindSigner::from_keys(key.clone());
    let user = BlindUser::new(key.to_public_key());
    let m: Vec<u8> = vec![0x12, 0x34, 0x56, 0x78];
    let sig = signer.sign_blinded(&m).unwrap();
    let back = BlindSigner::from_keys(PrivateKey { n: key.n.clone(), e: key.d.clone(), d: key.e.clone() })
        .sign_blinded(&sig)
        .unwrap();
    assert_eq!(back, m);
    let _ = user;
}
