use taiga::crypto::{encrypt_with_ephemeral, CryptoModule};

#[test]
fn test_encryption_decryption() {
    let alice = CryptoModule::new();
    let bob = CryptoModule::new();

    let message = b"Hello Bob, this is Alice with a secret!";

    let encrypted = alice.encrypt(&bob.public_key, message).unwrap();

    let decrypted = bob.decrypt(&encrypted).unwrap();

    assert_eq!(message.to_vec(), decrypted);
}

#[test]
fn test_key_rotation() {
    let mut alice = CryptoModule::new();
    let bob = CryptoModule::new();

    let old_alice_pub = alice.public_key;

    alice.rotate_keys();
    assert_ne!(old_alice_pub, alice.public_key);

    let msg = b"Message for new Alice";
    let encrypted = bob.encrypt(&alice.public_key, msg).unwrap();

    let decrypted = alice.decrypt(&encrypted).unwrap();
    assert_eq!(msg.to_vec(), decrypted);
}

#[test]
fn sealed_message_layout() {
    let bob = CryptoModule::new();
    let sealed = bob.encrypt(&bob.public_key, b"abc").unwrap();
    // ephemeral public key, ciphertext, 16-byte tag
    assert_eq!(sealed.len(), 32 + 3 + 16);
    assert_ne!(&sealed[32..35], b"abc");
}

#[test]
fn same_ephemeral_key_gives_the_same_message() {
    let bob = CryptoModule::new();
    let eph = [7u8; 32];
    let a = encrypt_with_ephemeral(&eph, &bob.public_key, b"data").unwrap();
    let b = encrypt_with_ephemeral(&eph, &bob.public_key, b"data").unwrap();
    assert_eq!(a, b);
    assert_eq!(bob.decrypt(&a).unwrap(), b"data".to_vec());
}

#[test]
fn short_message_is_refused() {
    let bob = CryptoModule::new();
    let err = bob.decrypt(&[0u8; 31]).unwrap_err();
    assert_eq!(err, "Слишком короткое сообщение (нет публичного ключа)");
}

#[test]
fn wrong_recipient_cannot_open() {
    let bob = CryptoModule::new();
    let eve = CryptoModule::default();
    let sealed = bob.encrypt(&bob.public_key, b"for bob").unwrap();
    let err = eve.decrypt(&sealed).unwrap_err();
    assert_eq!(err, "Ошибка расшифровки (неверный ключ или поврежденные данные)");
}

#[test]
fn tampered_message_is_refused() {
    let bob = CryptoModule::new();
    let mut sealed = bob.encrypt(&bob.public_key, b"integrity").unwrap();
    let last = sealed.len() - 1;
    sealed[last] ^= 1;
    assert!(bob.decrypt(&sealed).is_err());
}

#[test]
fn empty_message_round_trip() {
    let bob = CryptoModule::new();
    let sealed = bob.encrypt(&bob.public_key, b"").unwrap();
    assert_eq!(sealed.len(), 48);
    assert_eq!(bob.decrypt(&sealed).unwrap(), Vec::<u8>::new());
}

#[test]
fn public_key_bytes_matches_field() {
    let m = CryptoModule::new();
    assert_eq!(m.public_key_bytes(), m.public_key);
}

#[test]
fn keys_follow_the_given_secret() {
    let a = CryptoModule::from_secret([7u8; 32]);
    let b = CryptoModule::from_secret([7u8; 32]);
    assert_eq!(a.public_key, b.public_key);
    let mut c = CryptoModule::new();
    let public = c.set_secret([7u8; 32]);
    assert_eq!(public, a.public_key);
    assert_eq!(c.public_key, a.public_key);
    let sealed = b.encrypt(&c.public_key, b"same key").unwrap();
    assert_eq!(c.decrypt(&sealed).unwrap(), b"same key".to_vec());
    let mut d = CryptoModule::from_secret([7u8; 32]);
    d.rotate_keys();
    assert_ne!(d.public_key, a.public_key);
}

#[test]
fn message_shorter_than_key_and_tag_is_refused() {
    let m = CryptoModule::new();
    assert_eq!(
        m.decrypt(&[0u8; 40]).unwrap_err(),
        "Ошибка расшифровки (неверный ключ или поврежденные данные)"
    );
    assert_eq!(
        m.decrypt(&[0u8; 31]).unwrap_err(),
        "Слишком короткое сообщение (нет публичного ключа)"
    );
}
