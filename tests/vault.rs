use pass_manager::crypto::{decrypt, derive_key, encrypt, unwrap, wrap};
use pass_manager::error::PassManagerErr;
use pass_manager::manager::{generate_password, length_validator, unlock, Manager};

#[test]
fn round_trip_wrap_unwrap() {
    let salt = [7u8; 16];
    let derived = derive_key(b"correcthorse", &salt).unwrap();
    let master = [42u8; 32];
    let nonce = [3u8; 12];
    let wrapped = wrap(&derived, &nonce, &master);
    assert_eq!(wrapped.len(), 48);
    assert_ne!(&wrapped[..32], &master[..]);
    assert_eq!(unwrap(&derived, &nonce, &wrapped).unwrap(), master);
}

#[test]
fn derive_key_is_deterministic_and_salted() {
    let a = derive_key(b"correcthorse", &[1u8; 16]).unwrap();
    let b = derive_key(b"correcthorse", &[1u8; 16]).unwrap();
    let c = derive_key(b"correcthorse", &[2u8; 16]).unwrap();
    assert_eq!(a, b);
    assert_ne!(a, c);
    assert_ne!(&a[..12], b"correcthorse");
}

#[test]
fn wrong_passphrase_fails_to_unwrap() {
    let salt = [9u8; 16];
    let right = derive_key(b"correcthorse", &salt).unwrap();
    let wrong = derive_key(b"batterystaple", &salt).unwrap();
    let nonce = [5u8; 12];
    let wrapped = wrap(&right, &nonce, &[1u8; 32]);
    assert!(matches!(unwrap(&wrong, &nonce, &wrapped), Err(PassManagerErr::Aes { .. })));
}

#[test]
fn unwrap_of_wrong_length_is_try_from() {
    let key = [4u8; 32];
    let nonce = [6u8; 12];
    let sealed = encrypt(&key, &nonce, b"short").unwrap();
    assert!(matches!(unwrap(&key, &nonce, &sealed), Err(PassManagerErr::TryFrom)));
}

#[test]
fn item_decrypts_only_under_its_nonce() {
    let key = [11u8; 32];
    let nonce = [1u8; 12];
    let other = [2u8; 12];
    let ct = encrypt(&key, &nonce, b"hunter2").unwrap();
    assert_eq!(ct.len(), 7 + 16);
    assert_ne!(&ct[..7], b"hunter2");
    assert_eq!(decrypt(&key, &nonce, &ct).unwrap(), b"hunter2".to_vec());
    assert!(matches!(decrypt(&key, &other, &ct), Err(PassManagerErr::Aes { .. })));
}

#[test]
fn corrupted_ciphertext_fails() {
    let key = [11u8; 32];
    let nonce = [1u8; 12];
    let mut ct = encrypt(&key, &nonce, b"hunter2").unwrap();
    ct[0] ^= 1;
    assert!(decrypt(&key, &nonce, &ct).is_err());
    assert!(decrypt(&key, &nonce, &[1, 2, 3]).is_err());
}

#[test]
fn length_validator_needs_eight_characters() {
    assert!(length_validator("1234567").is_err());
    assert_eq!(length_validator("1234567").unwrap_err(), "Password must be longer than 8");
    assert!(length_validator("12345678").is_ok());
    assert!(length_validator("ééééééé").is_err());
    assert!(length_validator("éééééééé").is_ok());
}

#[test]
fn generated_password_is_alphanumeric_and_distinct() {
    let p = generate_password(16, false);
    assert_eq!(p.len(), 16);
    assert!(p.iter().all(|b| b.is_ascii_alphanumeric()));
    let mut sorted = p.clone();
    sorted.sort();
    sorted.dedup();
    assert_eq!(sorted.len(), 16);
}

#[test]
fn generated_password_with_special_chars() {
    let p = generate_password(94, true);
    assert_eq!(p.len(), 94);
    assert!(p.iter().all(|b| b.is_ascii_graphic()));
    assert_eq!(generate_password(200, false).len(), 62);
    assert_eq!(generate_password(0, true).len(), 0);
}

#[test]
fn init_rejects_short_passphrase() {
    let r = Manager::init("short", "a".to_string(), "a@b.c".to_string());
    assert!(matches!(r, Err(PassManagerErr::PassphraseTooShort)));
}

#[test]
fn unlock_with_right_and_wrong_passphrase() {
    let m = Manager::init("correcthorse", "n".to_string(), "n@e.x".to_string()).unwrap();
    let keys = unlock(&m.store, "correcthorse").unwrap();
    assert_eq!(keys.master_key, m.master_key);
    assert_eq!(keys.derived_key, m.derived_key);
    assert!(matches!(unlock(&m.store, "wrongpassphrase"), Err(PassManagerErr::Aes { .. })));
    assert!(matches!(unlock(&m.store, "short"), Err(PassManagerErr::PassphraseTooShort)));
}
