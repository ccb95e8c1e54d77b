use pass_manager::cmd::{Cli, CliSubcommand};
use pass_manager::crypto::decrypt;
use pass_manager::error::PassManagerErr;
use pass_manager::manager::{generate_password, plan_undo, unlock, Manager, UndoAction};
use pass_manager::store::Item;

fn fresh() -> Manager {
    Manager::init("correcthorse", "Ada".to_string(), "ada@example.com".to_string()).unwrap()
}

fn rows(m: &Manager) -> Vec<(String, String)> {
    let table = m.list().unwrap().unwrap();
    let mut rows: Vec<(String, String)> =
        table.rows().iter().map(|r| (r[0].clone(), r[1].clone())).collect();
    rows.sort();
    rows
}

#[test]
fn fresh_install_add_copy_list_delete() {
    let mut m = fresh();
    assert!(m.list().unwrap().is_none());
    let password = generate_password(16, false);
    m.add("github", &password, false).unwrap();
    assert!(m.fs_dirty);
    assert_eq!(m.success_message.as_deref(), Some("Successfully added 'github' to store"));
    let nonce = m.store.items.get("github").unwrap().nonce;
    let copied = m.copy("github").unwrap().unwrap();
    assert_eq!(copied.len(), 16);
    assert!(copied.chars().all(|c| c.is_ascii_alphanumeric()));
    assert_eq!(copied.as_bytes(), &password[..]);
    assert_eq!(m.store.items.get("github").unwrap().nonce, nonce);
    assert_eq!(rows(&m), vec![("github".to_string(), copied.clone())]);
    let table = m.list().unwrap().unwrap();
    assert_eq!(table.headers()[0], "Labels");
    assert_eq!(table.headers()[1], "Passwords");
    assert_eq!(table.maxes()[0], 6);
    assert_eq!(table.maxes()[1], 16);
    assert!(m.delete("github"));
    assert!(m.list().unwrap().is_none());
    assert!(m.store.is_empty());
}

#[test]
fn list_twice_gives_the_same_pairs() {
    let mut m = fresh();
    m.add("a", b"first secret", false).unwrap();
    m.add("b", b"second secret", false).unwrap();
    m.add("c", b"third", false).unwrap();
    let first = rows(&m);
    let second = rows(&m);
    assert_eq!(first, second);
    assert_eq!(first.len(), 3);
    assert_eq!(first[1], ("b".to_string(), "second secret".to_string()));
}

#[test]
fn add_overwrite_keeps_one_item_with_new_value() {
    let mut m = fresh();
    m.add("x", b"value A", false).unwrap();
    m.add("x", b"value B", true).unwrap();
    assert_eq!(m.store.items.labels().len(), 1);
    assert_eq!(m.copy("x").unwrap().unwrap(), "value B");
}

#[test]
fn add_without_overwrite_leaves_existing_value() {
    let mut m = fresh();
    m.add("x", b"value A", false).unwrap();
    m.fs_dirty = false;
    m.add("x", b"value B", false).unwrap();
    assert!(!m.fs_dirty);
    assert_eq!(m.copy("x").unwrap().unwrap(), "value A");
}

#[test]
fn item_ciphertext_is_not_the_plaintext() {
    let mut m = fresh();
    m.add("k", b"plain words", false).unwrap();
    let item: &Item = m.store.items.get("k").unwrap();
    assert_eq!(item.password.len(), 11 + 16);
    assert_ne!(&item.password[..11], b"plain words");
    assert_eq!(decrypt(&m.master_key, &item.nonce, &item.password).unwrap(), b"plain words");
}

#[test]
fn delete_and_copy_of_missing_label() {
    let mut m = fresh();
    assert!(!m.delete("nope"));
    assert!(!m.fs_dirty);
    assert!(m.copy("nope").unwrap().is_none());
}

#[test]
fn copy_of_non_utf8_is_an_error() {
    let mut m = fresh();
    m.add("bin", &[0xff, 0xfe], false).unwrap();
    assert!(matches!(m.copy("bin"), Err(PassManagerErr::Utf8)));
    assert!(matches!(m.list(), Err(PassManagerErr::Utf8)));
}

#[test]
fn undo_of_add_restores_previous_items() {
    let mut m = fresh();
    m.add("keep", b"one", false).unwrap();
    let before = rows(&m);
    m.add("x", b"two", false).unwrap();
    let cli = Cli {
        subcommand: CliSubcommand::Add {
            input: false,
            len: 12,
            special_chars: false,
            overwrite: false,
            label: "x".to_string(),
        },
    };
    let message = cli.to_commit_message();
    assert_eq!(message, "store add x");
    let action = plan_undo(Some(&message)).unwrap();
    assert!(matches!(&action, UndoAction::RemoveLabel(l) if l == "x"));
    assert_eq!(action.commit_message(), "store delete x");
    m.undo(action, None, None).unwrap();
    assert!(m.store.items.get("x").is_none());
    assert_eq!(rows(&m), before);
}

#[test]
fn rekey_keeps_items_and_reopens_with_new_passphrase() {
    let mut m = fresh();
    m.add("github", b"s3cret-value", false).unwrap();
    m.add("mail", b"another", false).unwrap();
    let old_salt = m.store.salt;
    let old_nonce = m.store.nonce;
    let old_key = m.store.key.clone();
    let before: Vec<([u8; 12], Vec<u8>)> = ["github", "mail"]
        .iter()
        .map(|l| {
            let it = m.store.items.get(l).unwrap();
            (it.nonce, it.password.clone())
        })
        .collect();
    let listed = rows(&m);
    m.modify("batterystaple").unwrap();
    assert_ne!(m.store.salt, old_salt);
    assert_ne!(m.store.nonce, old_nonce);
    assert_ne!(m.store.key, old_key);
    let after: Vec<([u8; 12], Vec<u8>)> = ["github", "mail"]
        .iter()
        .map(|l| {
            let it = m.store.items.get(l).unwrap();
            (it.nonce, it.password.clone())
        })
        .collect();
    assert_eq!(before, after);
    assert!(unlock(&m.store, "correcthorse").is_err());
    let keys = unlock(&m.store, "batterystaple").unwrap();
    assert_eq!(keys.master_key, m.master_key);
    let user = m.user.clone();
    let items_store = std::mem::replace(
        &mut m.store,
        pass_manager::store::Store::new(Vec::new(), [0; 16], [0; 12]),
    );
    let reopened = Manager::new(items_store, keys.derived_key, user, m.user_nonce).unwrap();
    assert_eq!(rows(&reopened), listed);
}

#[test]
fn rekey_rejects_short_passphrase() {
    let mut m = fresh();
    let salt = m.store.salt;
    assert!(matches!(m.modify("short"), Err(PassManagerErr::PassphraseTooShort)));
    assert_eq!(m.store.salt, salt);
    assert!(!m.fs_dirty);
}

#[test]
fn manager_new_rejects_wrong_key() {
    let m = fresh();
    let user = m.user.clone();
    let nonce = m.user_nonce;
    assert!(Manager::new(m.store, [0u8; 32], user, nonce).is_err());
}

#[test]
fn reset_needs_confirmation() {
    let mut m = fresh();
    m.add("a", b"1", false).unwrap();
    m.fs_dirty = false;
    m.reset(false);
    assert!(!m.fs_dirty);
    assert_eq!(m.store.items.labels().len(), 1);
    m.reset(true);
    assert!(m.fs_dirty);
    assert!(m.store.is_empty());
    assert_eq!(m.success_message.as_deref(), Some("Successfully reset store"));
}

#[test]
fn save_commits_only_when_dirty() {
    let mut m = fresh();
    assert!(m.save("store add a").is_none());
    m.add("a", b"1", false).unwrap();
    assert_eq!(m.save("store add a").as_deref(), Some("store add a"));
}

#[test]
fn sealed_user_record_opens_again() {
    let mut m = fresh();
    let old_nonce = m.user_nonce;
    let blob = m.seal_user(b"user record bytes").unwrap();
    assert_ne!(m.user_nonce, old_nonce);
    assert_eq!(&blob[..12], &m.user_nonce[..]);
    let (nonce, plain) = pass_manager::user::open_user_blob(&m.master_key, &blob).unwrap();
    assert_eq!(nonce, m.user_nonce);
    assert_eq!(plain, b"user record bytes");
    assert!(matches!(
        pass_manager::user::open_user_blob(&m.master_key, &blob[..5]),
        Err(PassManagerErr::TryFrom)
    ));
    assert!(pass_manager::user::open_user_blob(&[0u8; 32], &blob).is_err());
}
