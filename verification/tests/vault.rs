use desktop2fa::app_error::AppError;
use desktop2fa::secure_store::{
    is_local_backend, open_vault, plan_storage_initialization, reset_notice, seal_vault,
    seal_vault_with_nonce, NoticeAction, SecretMap, VaultFile, VaultKey,
};

fn key(byte: u8) -> VaultKey {
    VaultKey::from_bytes(vec![byte; 32]).expect("32 bytes make a key")
}

fn secure_store_text(error: AppError) -> String {
    match error {
        AppError::SecureStore(text) => text,
        other => panic!("expected a secure store error, got {:?}", other),
    }
}

/// The vault's contents as JSON, the way the desktop app writes them.
fn to_json(secrets: &SecretMap) -> Vec<u8> {
    let mut map = serde_json::Map::new();
    for (id, secret) in secrets.entries() {
        map.insert(id.clone(), serde_json::Value::String(secret.clone()));
    }
    let mut payload = serde_json::Map::new();
    payload.insert("secrets".into(), serde_json::Value::Object(map));
    serde_json::to_vec(&serde_json::Value::Object(payload)).unwrap()
}

fn from_json(bytes: &[u8]) -> SecretMap {
    let value: serde_json::Value = serde_json::from_slice(bytes).unwrap();
    let pairs = value["secrets"]
        .as_object()
        .unwrap()
        .iter()
        .map(|(k, v)| (k.clone(), v.as_str().unwrap().to_string()))
        .collect();
    SecretMap::from_entries(pairs)
}

#[test]
fn vault_round_trip() {
    let k = key(3);
    let mut input = SecretMap::new();
    input.insert("acct-1".into(), "JBSWY3DPEHPK3PXP".into());

    let vault = seal_vault(&k, &to_json(&input)).expect("vault should save");
    let loaded = from_json(&open_vault(&vault, &k).expect("vault should load"));

    assert_eq!(loaded.get("acct-1").as_deref(), Some("JBSWY3DPEHPK3PXP"));
    assert_eq!(loaded.entries().len(), 1);
}

#[test]
fn wrong_key_returns_error() {
    let mut input = SecretMap::new();
    input.insert("acct-1".into(), "SECRET".into());
    let vault = seal_vault(&key(1), &to_json(&input)).expect("vault should save");

    let error = open_vault(&vault, &key(7)).expect_err("vault should not decrypt");
    assert_eq!(secure_store_text(error), "Secret vault could not be decrypted");
}

#[test]
fn secret_crud_persists() {
    let k = key(9);
    let vault = seal_vault(&k, &to_json(&SecretMap::new())).expect("empty vault should save");

    let mut secrets = from_json(&open_vault(&vault, &k).expect("vault should load"));
    secrets.insert("acct-1".into(), "ONE".into());
    let vault = seal_vault(&k, &to_json(&secrets)).expect("vault should update");

    let mut loaded = from_json(&open_vault(&vault, &k).expect("vault should load"));
    assert_eq!(loaded.get("acct-1").as_deref(), Some("ONE"));

    loaded.remove("acct-1");
    let vault = seal_vault(&k, &to_json(&loaded)).expect("vault should delete");
    let final_state = from_json(&open_vault(&vault, &k).expect("vault should reload"));
    assert!(final_state.entries().is_empty());
}

#[test]
fn sealing_uses_a_fresh_nonce_and_the_current_version() {
    let k = key(2);
    let a = seal_vault(&k, b"same").unwrap();
    let b = seal_vault(&k, b"same").unwrap();
    assert_eq!(a.version, 1);
    assert_eq!(a.nonce.len(), 12);
    assert_eq!(b.nonce.len(), 12);
    assert_ne!(a.nonce, b.nonce);
    assert_eq!(open_vault(&a, &k).unwrap(), b"same");
    assert_eq!(open_vault(&b, &k).unwrap(), b"same");
}

#[test]
fn sealing_with_a_given_nonce_is_deterministic() {
    let k = key(4);
    let a = seal_vault_with_nonce(&k, vec![5; 12], b"payload").unwrap();
    let b = seal_vault_with_nonce(&k, vec![5; 12], b"payload").unwrap();
    assert_eq!(a.ciphertext, b.ciphertext);
    assert_eq!(a.ciphertext.len(), b"payload".len() + 16);
    assert_ne!(&a.ciphertext[..7], b"payload");
    assert_eq!(open_vault(&a, &k).unwrap(), b"payload");
}

#[test]
fn vault_files_are_checked_before_decrypting() {
    let k = key(6);
    let good = seal_vault(&k, b"x").unwrap();

    let future = VaultFile { version: 2, nonce: good.nonce.clone(), ciphertext: good.ciphertext.clone() };
    assert_eq!(secure_store_text(open_vault(&future, &k).unwrap_err()), "Secret vault version is unsupported");

    let short = VaultFile { version: 1, nonce: vec![0; 11], ciphertext: good.ciphertext.clone() };
    assert_eq!(secure_store_text(open_vault(&short, &k).unwrap_err()), "Secret vault nonce is invalid");

    let mut tampered = good.clone();
    tampered.ciphertext[0] ^= 1;
    assert_eq!(secure_store_text(open_vault(&tampered, &k).unwrap_err()), "Secret vault could not be decrypted");
}

#[test]
fn vault_keys_must_have_32_bytes() {
    assert_eq!(key(8).as_bytes(), &[8u8; 32][..]);
    for len in [0usize, 31, 33] {
        match VaultKey::from_bytes(vec![0; len]) {
            Err(AppError::SecureStore(text)) => assert_eq!(text, "Secret vault key is invalid"),
            other => panic!("unexpected {:?}", other.map(|_| ())),
        }
    }
}

#[test]
fn secret_map_lookup_insert_remove() {
    let mut secrets = SecretMap::new();
    match secrets.lookup("a") {
        Err(AppError::NotFound(kind)) => assert_eq!(kind, "secret"),
        other => panic!("unexpected {:?}", other),
    }
    secrets.insert("a".into(), "ONE".into());
    secrets.insert("b".into(), "TWO".into());
    secrets.insert("a".into(), "THREE".into());
    assert_eq!(secrets.lookup("a").unwrap(), "THREE");
    assert_eq!(secrets.lookup("b").unwrap(), "TWO");
    assert_eq!(secrets.entries().len(), 2);
    secrets.remove("a");
    secrets.remove("zzz");
    assert_eq!(secrets.get("a"), None);
    assert_eq!(secrets.get("b").as_deref(), Some("TWO"));
}

#[test]
fn secret_map_from_entries_keeps_the_last_pair() {
    let secrets = SecretMap::from_entries(vec![
        ("a".into(), "1".into()),
        ("b".into(), "2".into()),
        ("a".into(), "3".into()),
    ]);
    assert_eq!(secrets.get("a").as_deref(), Some("3"));
    assert_eq!(secrets.entries().len(), 2);
}

#[test]
fn storage_backend_and_notice() {
    assert!(is_local_backend(&Some("local-v1".into())));
    assert!(!is_local_backend(&Some("keychain".into())));
    assert!(!is_local_backend(&None));
    assert_eq!(
        reset_notice(true).as_deref(),
        Some("Desktop2FA switched to local encrypted storage to stop macOS Keychain prompts. Existing accounts were cleared and need to be added again.")
    );
    assert_eq!(reset_notice(false), None);
}

#[test]
fn storage_on_the_local_vault_only_creates_a_missing_vault() {
    let backend = Some(String::from("local-v1"));
    let missing = plan_storage_initialization(&backend, false, true);
    assert!(missing.create_vault);
    assert!(!missing.clear_accounts);
    assert!(!missing.mark_local);
    assert!(matches!(missing.notice, NoticeAction::Keep));

    let present = plan_storage_initialization(&backend, true, true);
    assert!(!present.create_vault);
    assert!(!present.clear_accounts);
    assert!(!present.mark_local);
    assert!(matches!(present.notice, NoticeAction::Keep));
}

#[test]
fn switching_to_the_local_vault_clears_accounts_and_leaves_a_notice() {
    for backend in [None, Some(String::from("keychain"))] {
        let actions = plan_storage_initialization(&backend, true, true);
        assert!(actions.create_vault);
        assert!(actions.clear_accounts);
        assert!(actions.mark_local);
        match actions.notice {
            NoticeAction::Put(text) => assert_eq!(Some(text), reset_notice(true)),
            _ => panic!("expected the reset notice"),
        }
    }
}

#[test]
fn switching_without_accounts_removes_the_notice() {
    let actions = plan_storage_initialization(&None, false, false);
    assert!(actions.create_vault);
    assert!(!actions.clear_accounts);
    assert!(actions.mark_local);
    assert!(matches!(actions.notice, NoticeAction::Delete));
}
