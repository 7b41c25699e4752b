use rsbtc::crypto::{PrivateKey, PublicKey, Signature};

fn arbitrary_hash() -> rsbtc::sha256::Hash {
    rsbtc::sha256::Hash::hash(&"test message")
}

#[test]
fn sign_verify_roundtrip() {
    let private_key = PrivateKey::new();
    let public_key = private_key.public_key();
    let hash = arbitrary_hash();

    let signature = Signature::sign_output(&hash, &private_key);

    assert!(signature.verify_output(&hash, &public_key));
}

#[test]
fn verify_fails_wrong_key() {
    let signer = PrivateKey::new();
    let other = PrivateKey::new();
    let hash = arbitrary_hash();

    let signature = Signature::sign_output(&hash, &signer);

    assert!(!signature.verify_output(&hash, &other.public_key()));
}

#[test]
fn verify_fails_tampered_hash() {
    let private_key = PrivateKey::new();
    let public_key = private_key.public_key();
    let hash = arbitrary_hash();
    let different_hash = rsbtc::sha256::Hash::hash(&"different message");

    let signature = Signature::sign_output(&hash, &private_key);

    assert!(!signature.verify_output(&different_hash, &public_key));
}

fn secret(n: u8) -> PrivateKey {
    let mut bytes = vec![0u8; 32];
    bytes[31] = n;
    PrivateKey::from_slice(&bytes).unwrap()
}

#[test]
fn generator_is_the_public_key_of_one() {
    let expected = hex::decode("0279be667ef9dcbbac55a06295ce870b07029bfcdb2dce28d959f2815b16f81798").unwrap();
    assert_eq!(secret(1).public_key().to_sec1_bytes(), expected);
}

#[test]
fn public_key_of_two_is_the_doubled_generator() {
    let expected = hex::decode("02c6047f9441ed7d6d3045406e95c07cd85c778e4b8cef3ca7abac09b95c709ee5").unwrap();
    assert_eq!(secret(2).public_key().to_sec1_bytes(), expected);
}

#[test]
fn public_key_is_read_from_both_forms() {
    let compressed = hex::decode("0279be667ef9dcbbac55a06295ce870b07029bfcdb2dce28d959f2815b16f81798").unwrap();
    let full = hex::decode("0479be667ef9dcbbac55a06295ce870b07029bfcdb2dce28d959f2815b16f81798483ada7726a3c4655da4fbfc0e1108a8fd17b448a68554199c47d08ffb10d4b8").unwrap();
    let key = secret(1).public_key();
    assert_eq!(PublicKey::from_sec1_bytes(&compressed), Some(key));
    assert_eq!(PublicKey::from_sec1_bytes(&full), Some(key));
    assert_eq!(PublicKey::from_sec1_bytes(&compressed[1..]), None);
    assert_eq!(PublicKey::from_sec1_bytes(&[]), None);
}

#[test]
fn odd_keys_keep_their_sign() {
    let mut seen = [false; 2];
    for n in 1..20u8 {
        let key = secret(n).public_key();
        let bytes = key.to_sec1_bytes();
        seen[(bytes[0] - 2) as usize] = true;
        assert_eq!(PublicKey::from_sec1_bytes(&bytes), Some(key));
    }
    assert_eq!(seen, [true, true]);
}

#[test]
fn signature_is_the_one_of_the_curve_library() {
    let hash = arbitrary_hash();
    let mut bytes = [0u8; 32];
    bytes[31] = 7;
    let key = ecdsa::SigningKey::<k256::Secp256k1>::from_slice(&bytes).unwrap();
    let expected: ecdsa::Signature<k256::Secp256k1> =
        ecdsa::signature::Signer::sign(&key, &hash.as_bytes());

    let signature = Signature::sign_output(&hash, &secret(7));

    assert_eq!(signature.to_bytes(), expected.to_bytes().to_vec());
    assert_eq!(Signature::sign_output(&hash, &secret(7)), signature);
    assert_ne!(Signature::sign_output(&hash, &secret(8)), signature);
}

#[test]
fn private_key_bytes_are_read_back() {
    let key = PrivateKey::new();
    let bytes = key.to_bytes();
    assert_eq!(bytes.len(), 32);
    assert_eq!(PrivateKey::from_slice(&bytes), Some(key));
    assert_ne!(PrivateKey::new(), key);
}

#[test]
fn private_keys_out_of_range_are_refused() {
    let order = hex::decode("fffffffffffffffffffffffffffffffebaaedce6af48a03bbfd25e8cd0364141").unwrap();
    let mut last = order.clone();
    last[31] -= 1;
    assert_eq!(PrivateKey::from_slice(&order), None);
    assert!(PrivateKey::from_slice(&last).is_some());
    assert_eq!(PrivateKey::from_slice(&[0u8; 32]), None);
    assert_eq!(PrivateKey::from_slice(&[1u8; 23]), None);
    assert_eq!(PrivateKey::from_slice(&[1u8; 33]), None);
}

#[test]
fn private_keys_agree_with_the_curve_library() {
    for len in 20..36usize {
        let bytes = vec![1u8; len];
        let theirs = ecdsa::SigningKey::<k256::Secp256k1>::from_slice(&bytes);
        let ours = PrivateKey::from_slice(&bytes);
        assert_eq!(ours.is_some(), theirs.is_ok());
        if let (Some(a), Ok(b)) = (ours, theirs) {
            assert_eq!(a.to_bytes(), b.to_bytes().to_vec());
        }
    }
}

#[test]
fn signature_bytes_are_read_back() {
    let signature = Signature::sign_output(&arbitrary_hash(), &secret(5));
    let bytes = signature.to_bytes();
    assert_eq!(Signature::from_slice(&bytes), Some(signature));
    assert_eq!(Signature::from_slice(&bytes[..63]), None);
    assert_eq!(Signature::from_slice(&[0u8; 64]), None);
}

#[test]
fn pem_is_read_back() {
    let key = secret(3).public_key();
    let pem = key.to_pem();
    assert!(pem.starts_with("-----BEGIN PUBLIC KEY-----\n"));
    assert!(pem.ends_with("-----END PUBLIC KEY-----\n"));
    assert_eq!(PublicKey::from_pem(&pem), Some(key));
    assert_eq!(PublicKey::from_pem("no key"), None);
}
