use kaidadb::error::KaidaDbError;
use kaidadb::server_key::{
    generate_key, hash_key, parse_key_file, request_allowed, trim, verify_key, KEY_LENGTH,
};

#[test]
fn test_generate_key_length() {
    let key = generate_key();
    assert_eq!(key.len(), KEY_LENGTH);
    assert!(key.chars().all(|c| c.is_ascii_alphanumeric()));
}

#[test]
fn test_generate_key_uniqueness() {
    let k1 = generate_key();
    let k2 = generate_key();
    assert_ne!(k1, k2);
}

#[test]
fn test_hash_key_deterministic() {
    let hash1 = hash_key("test-password");
    let hash2 = hash_key("test-password");
    assert_eq!(hash1, hash2);
    assert_eq!(hash1.len(), 64);
}

#[test]
fn test_verify_key() {
    let plaintext = "my-secret-key-123";
    let hash = hash_key(plaintext);
    assert!(verify_key(plaintext, &hash));
    assert!(!verify_key("wrong-key", &hash));
}

#[test]
fn hash_key_is_hex_sha256() {
    assert_eq!(
        hash_key(""),
        "e3b0c44298fc1c149afbf4c8996fb92427ae41e4649b934ca495991b7852b855"
    );
    assert_eq!(
        hash_key("abc"),
        "ba7816bf8f01cfea414140de5dae2223b00361a396177a9cb410ff61f20015ad"
    );
}

#[test]
fn key_file_is_trimmed_and_checked() {
    let h = hash_key("k");
    assert_eq!(parse_key_file(&format!("  {h}\n")).unwrap(), h);
    match parse_key_file("abc\n") {
        Err(KaidaDbError::Config(m)) => {
            assert_eq!(m, "server key file is corrupt (expected 64-char hex hash)")
        }
        _ => panic!("expected a configuration error"),
    }
    assert_eq!(trim("\u{3000} a b \t"), "a b");
    assert_eq!(trim("   "), "");
}

#[test]
fn remote_requests_need_the_key() {
    let hash = hash_key("sekret");
    assert!(request_allowed(true, None, &hash));
    assert!(request_allowed(true, Some("wrong"), &hash));
    assert!(request_allowed(false, Some("sekret"), &hash));
    assert!(!request_allowed(false, Some("wrong"), &hash));
    assert!(!request_allowed(false, None, &hash));
}

#[test]
fn stored_hashes_of_another_length_never_verify() {
    let h = hash_key("pw");
    assert_eq!(h.len(), 64);
    assert!(h.chars().all(|c| c.is_ascii_digit() || ('a'..='f').contains(&c)));
    assert!(verify_key("pw", &h));
    assert!(!verify_key("pw", &h.to_uppercase()));
    assert!(!verify_key("pw", &format!(" {h}")));
    assert!(!verify_key("pw", ""));
}
