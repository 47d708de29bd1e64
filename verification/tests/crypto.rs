use lkdots::config::{Entry, Platfrom};
use lkdots::crypto::{
    collect_files, confirm_passphrase, crypto_round_trip, decrypt_content, decrypted_name,
    encrypt_content, encrypted_name, CryptoError,
};

fn entry(from: &str, encrypt: bool) -> Entry {
    Entry {
        from: from.to_string(),
        to: "/home/user/x".to_string(),
        platforms: vec![Platfrom::Linux],
        encrypt,
    }
}

#[test]
fn test_crypto() {
    let passphrase = "abc".to_string();
    let original = b"a private key\nwith two lines\n".to_vec();
    let encrypted = encrypt_content(&original, &passphrase).unwrap();
    let decrypted = decrypt_content(&encrypted, &passphrase).unwrap();
    assert_eq!(original, decrypted);
    assert_ne!(original, encrypted);
}

#[test]
fn round_trip_of_empty_content() {
    let pass = "p".to_string();
    let plain: Vec<u8> = Vec::new();
    let got = crypto_round_trip(&plain, &pass).unwrap();
    assert_eq!(got, plain);
}

#[test]
fn round_trip_of_large_content() {
    let pass = "a longer pass phrase".to_string();
    let mut plain: Vec<u8> = Vec::with_capacity(2 * 1024 * 1024);
    let mut x: u32 = 0x12345678;
    for _ in 0..(2 * 1024 * 1024) {
        x = x.wrapping_mul(1664525).wrapping_add(1013904223);
        plain.push((x >> 24) as u8);
    }
    let got = crypto_round_trip(&plain, &pass).unwrap();
    assert_eq!(got, plain);
}

#[test]
fn fresh_salt_makes_ciphertexts_differ() {
    let pass = "same pass".to_string();
    let plain = b"same plaintext".to_vec();
    let c1 = encrypt_content(&plain, &pass).unwrap();
    let c2 = encrypt_content(&plain, &pass).unwrap();
    assert_ne!(c1, c2);
    assert_eq!(decrypt_content(&c1, &pass).unwrap(), plain);
    assert_eq!(decrypt_content(&c2, &pass).unwrap(), plain);
}

#[test]
fn wrong_passphrase_fails_and_yields_nothing() {
    let pass = "right".to_string();
    let wrong = "wrong".to_string();
    let plain = b"secret".to_vec();
    let encrypted = encrypt_content(&plain, &pass).unwrap();
    assert!(decrypt_content(&encrypted, &wrong).is_err());
}

#[test]
fn damaged_container_fails() {
    let pass = "right".to_string();
    let plain = b"secret".to_vec();
    let mut encrypted = encrypt_content(&plain, &pass).unwrap();
    let last = encrypted.len() - 1;
    encrypted[last] ^= 0xff;
    assert!(decrypt_content(&encrypted, &pass).is_err());
    assert!(decrypt_content(&b"not a container".to_vec(), &pass).is_err());
}

#[test]
fn confirmation_mismatch_aborts() {
    assert_eq!(
        confirm_passphrase(&"one".to_string(), &"two".to_string()),
        Err(CryptoError::PassphraseMismatch)
    );
    assert_eq!(
        confirm_passphrase(&"same".to_string(), &"sam".to_string()),
        Err(CryptoError::PassphraseMismatch)
    );
    assert_eq!(
        confirm_passphrase(&"same".to_string(), &"same".to_string()),
        Ok(())
    );
    assert_eq!(
        confirm_passphrase(&"".to_string(), &"".to_string()),
        Ok(())
    );
    assert_eq!(
        confirm_passphrase(&"héllo".to_string(), &"héllo".to_string()),
        Ok(())
    );
}

#[test]
fn name_derivation_round_trips() {
    let name = "café secret".to_string();
    let enc = encrypted_name(&name);
    assert_eq!(enc, "café secret.enc");
    assert_eq!(decrypted_name(&enc), Ok(name));
}

#[test]
fn invalid_ciphertext_names_are_rejected() {
    assert_eq!(
        decrypted_name(&"plain.txt".to_string()),
        Err(CryptoError::InvalidName("plain.txt".to_string()))
    );
    // stripping the suffix must not leave an empty name
    assert_eq!(
        decrypted_name(&".enc".to_string()),
        Err(CryptoError::InvalidName(".enc".to_string()))
    );
    assert_eq!(decrypted_name(&"a.enc".to_string()), Ok("a".to_string()));
}

#[test]
fn collect_files_selects_by_mode_and_entry() {
    let entries = vec![entry("/dots/a", true), entry("/dots/b", false), entry("/dots/c", true)];
    let walks = vec![
        vec![
            "/dots/a/one.txt".to_string(),
            "/dots/a/one.txt.enc".to_string(),
            "/dots/a/two".to_string(),
        ],
        vec!["/dots/b/ignored.txt".to_string()],
        vec!["/dots/c/three.enc".to_string(), "/dots/c/four".to_string()],
    ];
    // encrypt mode: regular files without the reserved suffix
    let enc = collect_files(&entries, &walks, false);
    assert_eq!(
        enc,
        vec![
            "/dots/a/one.txt".to_string(),
            "/dots/a/two".to_string(),
            "/dots/c/four".to_string(),
        ]
    );
    // decrypt mode: exactly the files with the reserved suffix
    let dec = collect_files(&entries, &walks, true);
    assert_eq!(
        dec,
        vec!["/dots/a/one.txt.enc".to_string(), "/dots/c/three.enc".to_string()]
    );
}
