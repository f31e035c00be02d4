use ecash::bignum::{gcd, mod_inverse, one_bytes};
use ecash::client::wallet_from_key;
use ecash::crypto::{BlindSigner, BlindUser};
use ecash::keys::{PrivateKey, PublicKey};
use ecash::protocol::Institution;
use ecash::server::key_response;

fn value(bytes: &[u8]) -> u128 {
    bytes.iter().fold(0u128, |acc, b| acc * 256 + *b as u128)
}

fn bytes_of(mut x: u128) -> Vec<u8> {
    let mut out = Vec::new();
    while x > 0 {
        out.insert(0, (x % 256) as u8);
        x /= 256;
    }
    out
}

fn toy_signer(n: u128, e: u128, d: u128) -> BlindSigner {
    let private_key = PrivateKey { n: bytes_of(n), e: bytes_of(e), d: bytes_of(d) };
    let public_key = PublicKey { n: bytes_of(n), e: bytes_of(e) };
    BlindSigner { private_key, public_key }
}

#[test]
fn signing_raises_to_the_private_exponent() {
    let signer = toy_signer(497, 3, 13);
    assert_eq!(value(&signer.sign_blinded(&bytes_of(4)).unwrap()), 445);
    let signer = toy_signer(3233, 17, 2753);
    let s = signer.sign_blinded(&bytes_of(65)).unwrap();
    assert_eq!(value(&s), 588);
}

#[test]
fn gcd_of_small_numbers() {
    assert_eq!(value(&gcd(&bytes_of(12), &bytes_of(18))), 6);
    assert_eq!(value(&gcd(&bytes_of(17), &bytes_of(5))), 1);
    assert_eq!(value(&gcd(&bytes_of(0), &bytes_of(9))), 9);
    assert_eq!(value(&gcd(&bytes_of(9), &[])), 9);
    assert_eq!(value(&gcd(&[0, 0, 12], &[0, 18])), 6);
}

#[test]
fn mod_inverse_of_coprime_value() {
    let inv = mod_inverse(&bytes_of(3), &bytes_of(7)).unwrap();
    assert_eq!(value(&inv), 5);
    let inv = mod_inverse(&bytes_of(17), &bytes_of(3120)).unwrap();
    assert_eq!(value(&inv), 2753);
}

#[test]
fn mod_inverse_multiplies_to_one() {
    let n: u128 = 1_000_000_007 * 998_244_353;
    for r in [2u128, 3, 65537, 123456789123, n - 1] {
        let inv = value(&mod_inverse(&bytes_of(r), &bytes_of(n)).unwrap());
        assert!(inv < n);
        assert_eq!(r * inv % n, 1);
    }
}

#[test]
fn mod_inverse_absent_when_not_coprime() {
    assert!(mod_inverse(&bytes_of(4), &bytes_of(6)).is_none());
    assert!(mod_inverse(&bytes_of(0), &bytes_of(7)).is_none());
    assert!(mod_inverse(&bytes_of(21), &bytes_of(14)).is_none());
}

#[test]
fn unblinding_takes_the_factor_out() {
    let user = BlindUser::new(PublicKey { n: bytes_of(3233), e: bytes_of(17) });
    let s = user.unblind_signature(&bytes_of(100), &bytes_of(7)).unwrap();
    assert_eq!(value(&s) * 7 % 3233, 100);
    assert!(user.unblind_signature(&bytes_of(100), &bytes_of(61)).is_err());
}

#[test]
fn comparisons_read_values_not_bytes() {
    assert!(PublicKey::new(vec![0, 0, 5], vec![0, 3]).is_ok());
    assert!(PublicKey::new(vec![0, 0, 1], vec![3]).is_err());
    assert!(PublicKey::new(vec![1, 0], vec![0, 1]).is_err());
    assert_eq!(value(&one_bytes()), 1);
}

#[test]
fn decimal_text_of_keys() {
    let w = wallet_from_key("0065537", "65537", "i".to_string(), "USD".to_string(), vec![]).unwrap();
    assert_eq!(value(&w.user.public_key.n), 65537);
    assert!(wallet_from_key("", "3", "i".to_string(), "USD".to_string(), vec![]).is_err());
    let key = PrivateKey { n: bytes_of(3233), e: bytes_of(17), d: bytes_of(2753) };
    let inst = Institution::new(key, "inst".to_string(), "key".to_string(), vec![10], 1);
    let advertised = key_response(&inst);
    assert_eq!(advertised.public_key_n, "3233");
    assert_eq!(advertised.public_key_e, "17");
    assert_eq!(advertised.denominations, vec![10]);
    assert_eq!(advertised.key_id, "key");
}

#[test]
fn verification_compares_with_the_sha256_digest() {
    let digest_abc: Vec<u8> = vec![
        0xba, 0x78, 0x16, 0xbf, 0x8f, 0x01, 0xcf, 0xea, 0x41, 0x41, 0x40, 0xde, 0x5d, 0xae, 0x22,
        0x23, 0xb0, 0x03, 0x61, 0xa3, 0x96, 0x17, 0x7a, 0x9c, 0xb4, 0x10, 0xff, 0x61, 0xf2, 0x00,
        0x15, 0xad,
    ];
    // with exponent one a signature verifies exactly when it is the digest
    let user = BlindUser::new(PublicKey { n: vec![0xff; 40], e: vec![1] });
    assert!(user.verify_signature(b"abc", &digest_abc));
    assert!(!user.verify_signature(b"abd", &digest_abc));
    assert!(!user.verify_signature(b"abc", b"abc"));
}

#[test]
fn blinding_uses_the_draw_reduced_modulo_n() {
    let user = BlindUser::new(PublicKey { n: bytes_of(3233), e: bytes_of(17) });
    let (b, f) = user.blind_with_draw(b"m", &bytes_of(3233 + 7)).unwrap();
    assert_eq!(value(&f), 7);
    assert!(value(&b) < 3233);
    let (b2, _) = user.blind_with_draw(b"m", &bytes_of(7)).unwrap();
    assert_eq!(b, b2);
    assert!(user.blind_with_draw(b"m", &bytes_of(3233)).is_none());
    assert!(user.blind_with_draw(b"m", &bytes_of(1)).is_none());
    assert!(user.blind_with_draw(b"m", &bytes_of(61)).is_none());
    assert!(user.blind_with_draw(b"m", &[]).is_none());
}
