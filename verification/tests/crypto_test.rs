use vuvuzela::crypto::{
    decrypt, decrypt_message, derive_dead_drop_id, derive_key, encrypt, encrypt_message,
    pad_message, unpad_message, CryptoError,
};
use vuvuzela::types::{EncryptedMessage, Keypair, SharedSecret, MESSAGE_SIZE};
use vuvuzela::x25519::derive_shared_secret;

fn test_secret() -> SharedSecret {
    let alice = Keypair::random().unwrap();
    let bob = Keypair::random().unwrap();
    derive_shared_secret(&alice.public, &bob.public, 1)
}

#[test]
fn derive_key_deterministic() {
    let secret = test_secret();
    let k1 = derive_key(&secret, 42);
    let k2 = derive_key(&secret, 42);
    assert_eq!(k1, k2);
}

#[test]
fn derive_key_different_rounds() {
    let secret = test_secret();
    let k1 = derive_key(&secret, 1);
    let k2 = derive_key(&secret, 2);
    assert_ne!(k1, k2);
}

#[test]
fn derive_key_is_not_the_secret() {
    let secret = SharedSecret([7u8; 32]);
    assert_ne!(derive_key(&secret, 0), secret.0);
}

#[test]
fn derive_dead_drop_id_deterministic() {
    let secret = test_secret();
    let id1 = derive_dead_drop_id(&secret, 42);
    let id2 = derive_dead_drop_id(&secret, 42);
    assert_eq!(id1, id2);
}

#[test]
fn derive_dead_drop_id_different_rounds() {
    let secret = test_secret();
    let id1 = derive_dead_drop_id(&secret, 1);
    let id2 = derive_dead_drop_id(&secret, 2);
    assert_ne!(id1, id2);
}

#[test]
fn dead_drop_id_differs_from_key_prefix() {
    let secret = SharedSecret([3u8; 32]);
    let key = derive_key(&secret, 5);
    let id = derive_dead_drop_id(&secret, 5);
    assert_ne!(&key[..16], &id[..]);
}

#[test]
fn encrypt_decrypt_roundtrip() {
    let secret = test_secret();
    let plaintext = b"Hello, Bob!";
    let encrypted = encrypt_message(&secret, 1, plaintext).unwrap();
    let decrypted = decrypt_message(&secret, 1, &encrypted).unwrap();
    assert_eq!(decrypted, plaintext);
}

#[test]
fn encrypt_decrypt_wrong_key_fails() {
    let alice = Keypair::random().unwrap();
    let bob = Keypair::random().unwrap();
    let charlie = Keypair::random().unwrap();
    let secret_ab = derive_shared_secret(&alice.public, &bob.public, 1);
    let secret_ac = derive_shared_secret(&alice.public, &charlie.public, 1);
    let plaintext = b"Hello, Bob!";
    let encrypted = encrypt_message(&secret_ab, 1, plaintext).unwrap();
    let result = decrypt_message(&secret_ac, 1, &encrypted);
    assert!(result.is_err());
}

#[test]
fn encrypt_decrypt_wrong_round_fails() {
    let secret = test_secret();
    let plaintext = b"Hello, Bob!";
    let encrypted = encrypt_message(&secret, 1, plaintext).unwrap();
    let result = decrypt_message(&secret, 2, &encrypted);
    assert!(result.is_err());
}

#[test]
fn pad_unpad_roundtrip() {
    let msg = b"short";
    let padded = pad_message(msg);
    assert_eq!(padded.len(), MESSAGE_SIZE);
    let unpadded = unpad_message(&padded);
    assert_eq!(unpadded, msg);
}

#[test]
fn pad_unpad_empty() {
    let msg = b"";
    let padded = pad_message(msg);
    assert_eq!(padded.len(), MESSAGE_SIZE);
    assert_eq!(padded[0], 0);
    assert_eq!(padded[1], 0);
    let unpadded = unpad_message(&padded);
    assert_eq!(unpadded, msg);
}

#[test]
fn pad_exact_size() {
    let msg = vec![0xABu8; MESSAGE_SIZE - 2];
    let padded = pad_message(&msg);
    assert_eq!(padded.len(), MESSAGE_SIZE);
    let unpadded = unpad_message(&padded);
    assert_eq!(unpadded, msg);
}

#[test]
fn empty_message_encryption() {
    let secret = test_secret();
    let plaintext = b"";
    let encrypted = encrypt_message(&secret, 1, plaintext).unwrap();
    let decrypted = decrypt_message(&secret, 1, &encrypted).unwrap();
    assert_eq!(decrypted, plaintext);
}

#[test]
fn pad_layout_is_length_prefix_then_zeros() {
    let padded = pad_message(&[9u8, 8, 7]);
    assert_eq!(&padded[..5], &[3u8, 0, 9, 8, 7]);
    assert!(padded[5..].iter().all(|b| *b == 0));
}

#[test]
fn pad_truncates_long_messages() {
    let msg = vec![0x11u8; MESSAGE_SIZE + 40];
    let padded = pad_message(&msg);
    assert_eq!(padded.len(), MESSAGE_SIZE);
    assert_eq!(padded[0], ((MESSAGE_SIZE - 2) % 256) as u8);
    assert_eq!(padded[1], ((MESSAGE_SIZE - 2) / 256) as u8);
    assert_eq!(unpad_message(&padded), vec![0x11u8; MESSAGE_SIZE - 2]);
}

#[test]
fn unpad_with_bad_prefix_returns_input() {
    assert_eq!(unpad_message(&[5u8]), vec![5u8]);
    let data = vec![200u8, 0, 1, 2];
    assert_eq!(unpad_message(&data), data);
}

#[test]
fn encrypted_message_has_fixed_size() {
    let secret = test_secret();
    let short = encrypt_message(&secret, 3, b"a").unwrap();
    let long = encrypt_message(&secret, 3, &vec![1u8; 200]).unwrap();
    assert_eq!(short.data.len(), MESSAGE_SIZE + 16);
    assert_eq!(long.data.len(), MESSAGE_SIZE + 16);
    assert_ne!(short.data, pad_message(b"a"));
}

#[test]
fn encrypt_adds_a_tag_and_decrypt_inverts() {
    let key = [4u8; 32];
    let ct = encrypt(&key, 9, b"abc").unwrap();
    assert_eq!(ct.len(), 3 + 16);
    assert_ne!(&ct[..3], b"abc");
    assert_eq!(decrypt(&key, 9, &ct).unwrap(), b"abc".to_vec());
}

#[test]
fn decrypt_short_ciphertext_is_invalid_length() {
    let key = [4u8; 32];
    assert_eq!(decrypt(&key, 1, &[0u8; 15]), Err(CryptoError::InvalidLength));
}

#[test]
fn decrypt_tampered_ciphertext_fails() {
    let key = [4u8; 32];
    let mut ct = encrypt(&key, 1, b"abc").unwrap();
    ct[0] ^= 1;
    assert_eq!(decrypt(&key, 1, &ct), Err(CryptoError::DecryptionFailed));
}

#[test]
fn decrypt_message_errors() {
    let secret = test_secret();
    let short = EncryptedMessage { data: vec![1u8; 4] };
    assert_eq!(decrypt_message(&secret, 1, &short), Err(CryptoError::InvalidLength));
    let garbage = EncryptedMessage { data: vec![1u8; 40] };
    assert_eq!(decrypt_message(&secret, 1, &garbage), Err(CryptoError::DecryptionFailed));
}

#[test]
fn crypto_error_messages() {
    assert_eq!(CryptoError::EncryptionFailed.message(), "encryption failed");
    assert_eq!(CryptoError::DecryptionFailed.message(), "decryption failed");
    assert_eq!(CryptoError::InvalidLength.message(), "invalid ciphertext length");
}
