use dataseal::enc_keys::unwrap_item_key;
use dataseal::structs::{Config, Database, DatabaseArguments, DatabaseMeta, VaultError};

fn args(name: &str, password: &str, root: &str) -> DatabaseArguments {
    DatabaseArguments {
        db_name: name.to_string(),
        owner: "owner".to_string(),
        description: "desc".to_string(),
        master_password: password.to_string(),
        is_nested: false,
        root_directory: root.to_string(),
    }
}

fn vault(password: &str) -> Database {
    Database::with_dir(&args("main", password, "/tmp/vault/"), None, DatabaseMeta::new(), DatabaseMeta::new(), DatabaseMeta::new(), Vec::new()).unwrap()
}

fn copy_config(c: &Config) -> Config {
    c.duplicate()
}

#[test]
fn end_to_end_scenario() {
    let mut db = vault("root123");
    db.add_password("email", "secret1").unwrap();
    let listed = db.list_decrypted_passwords(None);
    assert_eq!(listed.len(), 1);
    assert_eq!(listed[0].name, "email");
    assert!(!listed[0].is_encrypted);
    db.encrypt_password("email").unwrap();
    assert!(db.meta.decrypted_meta.data.passwords.is_empty());
    let enc = &db.meta.encrypted_meta.data.passwords[0];
    assert!(enc.is_encrypted);
    assert_ne!(enc.password, "secret1");
    db.change_master_password_independent("root123", "newpass").unwrap();
    assert!(db.verify_master_password("newpass"));
    assert!(!db.verify_master_password("root123"));
    db.decrypt_password("email").unwrap();
    assert_eq!(db.meta.decrypted_meta.data.passwords[0].password, "secret1");
}

#[test]
fn layout_and_key_of_opened_vault() {
    let db = vault("pw");
    assert_eq!(db.directories.root_directory, "/tmp/vault");
    assert_eq!(db.directories.decrypted_files_dir, "/tmp/vault/.decrypted/.files");
    assert_eq!(db.directories.recycle_folders_dir, "/tmp/vault/.recycle_bin/.folders");
    assert_eq!(db.directories.nested_db_dir, "/tmp/vault/.nested");
    assert_eq!(db.meta.trash_meta.file_path, "/tmp/vault/.recycle_bin/.trash_meta.json");
    assert_eq!(db.directories.config_file(), "/tmp/vault/.config.json");
    assert_eq!(db.config.file_path.as_deref(), Some("/tmp/vault/.config.json"));
    assert_eq!(db.config.db_info.name, "main");
    assert_eq!(db.config.db_version, "0.1.0");
    assert_eq!(db.config.max_file_size_mb, 100);
    assert_eq!(db.master.key, db.config.derive_master_key("pw").unwrap());
}

#[test]
fn reopening_checks_the_password() {
    let db = vault("right");
    let stored = copy_config(&db.config);
    let wrong = Database::with_dir(&args("main", "wrong", "/tmp/vault"), Some(stored), DatabaseMeta::new(), DatabaseMeta::new(), DatabaseMeta::new(), Vec::new());
    assert_eq!(wrong.err(), Some(VaultError::Auth));
    let stored = copy_config(&db.config);
    let again = Database::with_dir(&args("main", "right", "/tmp/vault"), Some(stored), DatabaseMeta::new(), DatabaseMeta::new(), DatabaseMeta::new(), Vec::new()).unwrap();
    assert_eq!(again.master.key, db.master.key);
}

#[test]
fn duplicate_password_name_rejected() {
    let mut db = vault("pw");
    db.add_password("a", "1").unwrap();
    assert_eq!(db.add_password("a", "2"), Err(VaultError::DuplicateName));
    db.encrypt_password("a").unwrap();
    assert_eq!(db.add_password("a", "3"), Err(VaultError::DuplicateName));
}

#[test]
fn change_password_rules() {
    let mut db = vault("pw");
    db.add_password("a", "1").unwrap();
    assert_eq!(db.change_password("a", "1"), Err(VaultError::State));
    assert_eq!(db.change_password("zz", "1"), Err(VaultError::NotFound));
    db.change_password("a", "2").unwrap();
    assert_eq!(db.meta.decrypted_meta.data.passwords[0].password, "2");
    db.encrypt_password("a").unwrap();
    assert_eq!(db.change_password("a", "3"), Err(VaultError::NotFound));
}

#[test]
fn encrypt_and_decrypt_errors() {
    let mut db = vault("pw");
    assert_eq!(db.encrypt_password("none"), Err(VaultError::NotFound));
    assert_eq!(db.decrypt_password("none"), Err(VaultError::NotFound));
    db.add_password("a", "1").unwrap();
    db.meta.decrypted_meta.data.passwords[0].encrypted_item_key = "garbage".to_string();
    assert_eq!(db.encrypt_password("a"), Err(VaultError::Crypto));
    assert_eq!(db.meta.decrypted_meta.data.passwords.len(), 1);
    db.meta.decrypted_meta.data.passwords[0].is_encrypted = true;
    assert_eq!(db.encrypt_password("a"), Err(VaultError::State));
}

#[test]
fn decrypt_with_wrong_key_leaves_item_encrypted() {
    let mut db = vault("pw");
    db.add_password("a", "1").unwrap();
    db.add_password("b", "2").unwrap();
    db.encrypt_password("a").unwrap();
    db.encrypt_password("b").unwrap();
    let other = db.meta.encrypted_meta.data.passwords[1].encrypted_item_key.clone();
    db.meta.encrypted_meta.data.passwords[0].encrypted_item_key = other;
    assert_eq!(db.decrypt_password("a"), Err(VaultError::Crypto));
    assert_eq!(db.meta.encrypted_meta.data.passwords.len(), 2);
    assert!(db.meta.encrypted_meta.data.passwords[0].is_encrypted);
}

#[test]
fn bulk_encrypt_and_decrypt() {
    let mut db = vault("pw");
    db.add_password("a", "1").unwrap();
    db.add_password("b", "2").unwrap();
    db.add_password("c", "3").unwrap();
    db.meta.decrypted_meta.data.passwords[1].encrypted_item_key = "bad".to_string();
    assert!(!db.encrypt_all_passwords());
    assert_eq!(db.meta.decrypted_meta.data.passwords.len(), 1);
    assert_eq!(db.meta.decrypted_meta.data.passwords[0].name, "b");
    assert_eq!(db.meta.encrypted_meta.data.passwords.len(), 2);
    assert!(db.decrypt_all_passwords());
    let names: Vec<&str> = db.meta.decrypted_meta.data.passwords.iter().map(|p| p.name.as_str()).collect();
    assert_eq!(names, vec!["b", "a", "c"]);
    assert_eq!(db.meta.decrypted_meta.data.passwords[1].password, "1");
    assert_eq!(db.meta.decrypted_meta.data.passwords[2].password, "3");
}

#[test]
fn rotation_rewraps_every_item() {
    let mut db = vault("old");
    db.add_password("p", "secret").unwrap();
    db.add_password("q", "other").unwrap();
    db.encrypt_password("q").unwrap();
    db.delete_password("p").unwrap();
    let old_key = db.master.key;
    let before: Vec<Vec<u8>> = [&db.meta.trash_meta.data.passwords[0], &db.meta.encrypted_meta.data.passwords[0]]
        .iter()
        .map(|e| unwrap_item_key(&e.encrypted_item_key, &old_key).unwrap())
        .collect();
    db.change_master_password_independent("old", "new").unwrap();
    let new_key = db.master.key;
    assert_ne!(new_key, old_key);
    assert_eq!(new_key, db.config.derive_master_key("new").unwrap());
    let entries = [&db.meta.trash_meta.data.passwords[0], &db.meta.encrypted_meta.data.passwords[0]];
    for (e, k) in entries.iter().zip(before.iter()) {
        assert_eq!(&unwrap_item_key(&e.encrypted_item_key, &new_key).unwrap(), k);
        assert!(unwrap_item_key(&e.encrypted_item_key, &old_key).is_none());
    }
    db.decrypt_password("q").unwrap();
    assert_eq!(db.meta.decrypted_meta.data.passwords[0].password, "other");
}

#[test]
fn rotation_is_all_or_nothing() {
    let mut db = vault("old");
    for i in 0..5 {
        db.add_password(&format!("p{}", i), "v").unwrap();
    }
    db.meta.decrypted_meta.data.passwords[3].encrypted_item_key = "corrupted".to_string();
    let key_before = db.master.key;
    let verifier_before = db.config.verifier_b64.clone();
    let keys_before: Vec<String> = db.meta.decrypted_meta.data.passwords.iter().map(|p| p.encrypted_item_key.clone()).collect();
    assert_eq!(db.change_master_password_independent("old", "new"), Err(VaultError::Crypto));
    assert_eq!(db.master.key, key_before);
    assert_eq!(db.config.verifier_b64, verifier_before);
    let keys_after: Vec<String> = db.meta.decrypted_meta.data.passwords.iter().map(|p| p.encrypted_item_key.clone()).collect();
    assert_eq!(keys_after, keys_before);
    assert!(db.verify_master_password("old"));
    assert!(!db.verify_master_password("new"));
}

#[test]
fn rotation_with_wrong_old_password_fails() {
    let mut db = vault("old");
    let key_before = db.master.key;
    assert_eq!(db.change_master_password_independent("bad", "new"), Err(VaultError::Auth));
    assert_eq!(db.master.key, key_before);
    assert!(db.verify_master_password("old"));
}

#[test]
fn prepare_does_not_touch_the_vault() {
    let db = vault("old");
    let key = db.master.key;
    let changes = db.prepare_root_password_change_pure("old", "new", &key).unwrap();
    assert_eq!(db.master.key, key);
    assert!(db.verify_master_password("old"));
    assert_ne!(changes.new_master_key, key);
    assert!(changes.new_config.check_verifier("new"));
}

#[test]
fn config_change_master_password() {
    let db = vault("one");
    let mut cfg = db.config.duplicate();
    assert!(cfg.change_master_password("wrong", "two").is_none());
    assert!(cfg.check_verifier("one"));
    let k = cfg.change_master_password("one", "two").unwrap();
    assert!(cfg.check_verifier("two"));
    assert!(!cfg.check_verifier("one"));
    assert_eq!(k, cfg.derive_master_key("two").unwrap());
    let (key, pure) = db.config.change_master_password_pure("one", "three").unwrap();
    assert!(pure.check_verifier("three"));
    assert_eq!(pure.kdf_salt_b64, db.config.kdf_salt_b64);
    assert_eq!(key, pure.derive_master_key("three").unwrap());
}

#[test]
fn stats_count_partitions() {
    let mut db = vault("pw");
    db.add_password("a", "1").unwrap();
    db.add_password("b", "2").unwrap();
    db.encrypt_password("b").unwrap();
    let s = db.get_database_stats(10, 20, 5);
    assert_eq!(s.password_count, 2);
    assert_eq!(s.encrypted_count, 1);
    assert_eq!(s.decrypted_count, 1);
    assert_eq!(s.file_count, 0);
    assert_eq!(s.total_size_bytes, 35);
    let big = db.get_database_stats(u64::MAX, 1, 0);
    assert_eq!(big.total_size_bytes, u64::MAX);
}

#[test]
fn rotation_rewraps_folder_trees() {
    let mut db = vault("old");
    let outer = db.plan_create_folder("outer").unwrap();
    let inner = db.plan_create_folder("inner").unwrap();
    let leaf = db.plan_create_folder("leaf").unwrap();
    let mut inner = inner;
    inner.sub_folders.push(leaf);
    let mut outer = outer;
    outer.sub_folders.push(inner);
    db.commit_create_folder(outer).unwrap();
    let old_key = db.master.key;
    let leaf_key = unwrap_item_key(&db.meta.decrypted_meta.data.folders[0].sub_folders[0].sub_folders[0].encrypted_item_key, &old_key).unwrap();
    db.change_master_password_independent("old", "new").unwrap();
    let new_key = db.master.key;
    let leaf_after = &db.meta.decrypted_meta.data.folders[0].sub_folders[0].sub_folders[0];
    assert_eq!(leaf_after.name, "leaf");
    assert_eq!(unwrap_item_key(&leaf_after.encrypted_item_key, &new_key).unwrap(), leaf_key);
    assert!(unwrap_item_key(&leaf_after.encrypted_item_key, &old_key).is_none());
}

#[test]
fn sealed_secret_differs_from_plaintext() {
    let mut db = vault("root123");
    db.add_password("email", "secret1").unwrap();
    assert!(!db.meta.decrypted_meta.data.passwords[0].encrypted_item_key.is_empty());
    db.encrypt_password("email").unwrap();
    let sealed = &db.meta.encrypted_meta.data.passwords[0].password;
    // base64 of 12 + 7 + 16 bytes
    assert_eq!(sealed.len(), 48);
}
