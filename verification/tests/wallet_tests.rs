use rust_blockchain::utils::{base58_decode, base58_encode, ripemd160_digest, sha256_digest};
use rust_blockchain::{checksum, convert_address, hash_pub_key, validate_address, Wallet};

#[test]
fn test_wallet_creation() {
    let wallet = Wallet::new().unwrap();
    assert!(!wallet.get_public_key().is_empty());
    assert!(!wallet.get_pkcs8().is_empty());
}

#[test]
fn test_get_address() {
    let wallet = Wallet::new().unwrap();
    let address = wallet.get_address();
    assert!(validate_address(&address));
}

#[test]
fn test_validate_address() {
    let wallet = Wallet::new().unwrap();
    let address = wallet.get_address();
    assert!(validate_address(&address));
    assert!(!validate_address("invalid_address"));
}

#[test]
fn test_convert_address() {
    let wallet = Wallet::new().unwrap();
    let pub_key_hash = hash_pub_key(wallet.get_public_key());
    let address = convert_address(&pub_key_hash);
    assert!(validate_address(&address));
}

#[test]
fn test_sha256_known_vector() {
    let digest = sha256_digest(b"abc");
    let expected =
        hex::decode("ba7816bf8f01cfea414140de5dae2223b00361a396177a9cb410ff61f20015ad").unwrap();
    assert_eq!(digest, expected);
}

#[test]
fn test_ripemd160_known_vector() {
    let digest = ripemd160_digest(b"abc");
    let expected = hex::decode("8eb208f7e05d987a9b044a8e98c6b087f15a0bfc").unwrap();
    assert_eq!(digest, expected);
}

#[test]
fn test_base58_round_trip() {
    let data: Vec<u8> = vec![0, 0, 7, 255, 42, 1, 99];
    let encoded = base58_encode(&data);
    let decoded = base58_decode(&encoded).unwrap();
    assert_eq!(decoded, data);
}

#[test]
fn test_base58_decode_rejects_bad_alphabet() {
    assert!(base58_decode("0OIl").is_none());
}

#[test]
fn test_base58_alphabet_and_leading_zeros() {
    let encoded = base58_encode(&[0, 0, 255, 17]);
    // One leading '1' per leading zero byte.
    assert!(encoded.starts_with("11"));
    // Every character lies in the 58-character alphabet.
    for c in encoded.chars() {
        let in_alphabet = ('1'..='9').contains(&c)
            || (('A'..='Z').contains(&c) && c != 'I' && c != 'O')
            || (('a'..='z').contains(&c) && c != 'l');
        assert!(in_alphabet);
    }
}

#[test]
fn test_checksum_length_and_determinism() {
    let a = checksum(b"payload");
    let b = checksum(b"payload");
    let c = checksum(b"other payload");
    assert_eq!(a.len(), 4);
    assert_eq!(a, b);
    assert_ne!(a, c);
}

#[test]
fn test_hash_pub_key_length() {
    let h = hash_pub_key(b"some public key bytes");
    assert_eq!(h.len(), 20);
}

#[test]
fn test_address_is_short_and_checked() {
    // Tampering with one character of a valid address breaks the checksum.
    let wallet = Wallet::new().unwrap();
    let address = wallet.get_address();
    let mut tampered: Vec<char> = address.chars().collect();
    let first = tampered[0];
    tampered[0] = if first == '2' { '3' } else { '2' };
    let tampered: String = tampered.into_iter().collect();
    assert!(!validate_address(&tampered));
}

#[test]
fn test_wallets_collection() {
    let mut wallets = rust_blockchain::Wallets::new();
    assert_eq!(wallets.len(), 0);
    let addr = wallets.create_wallet().unwrap();
    assert_eq!(wallets.len(), 1);
    assert!(wallets.get_addresses().iter().any(|a| *a == addr));
    let w = wallets.get_wallet(&addr).expect("wallet should be stored");
    assert_eq!(convert_address(&hash_pub_key(w.get_public_key())), addr);
    assert!(wallets.get_wallet("not an address").is_none());
}

#[test]
fn test_public_key_is_derived_from_the_document() {
    // The stored public key is the 65-byte uncompressed P-256 point the
    // key document carries, not the document itself.
    let wallet = Wallet::new().unwrap();
    assert_eq!(wallet.get_public_key().len(), 65);
    assert_ne!(wallet.get_public_key(), wallet.get_pkcs8());
}
