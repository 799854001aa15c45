use dataseal::structs::{Config, DBInfo, DatabaseArguments, DatabaseStats, VaultError};

fn args(password: &str) -> DatabaseArguments {
    DatabaseArguments {
        db_name: "main".to_string(),
        owner: "ann".to_string(),
        description: "notes".to_string(),
        master_password: password.to_string(),
        is_nested: true,
        root_directory: "/r".to_string(),
    }
}

#[test]
fn fresh_config_defaults() {
    let c = Config::default();
    assert_eq!(c.db_version, "0.1.0");
    assert_eq!(c.max_file_size_mb, 100);
    assert!(c.verifier_b64.is_empty());
    assert!(c.file_path.is_none());
    assert!(!c.is_nested);
    assert_eq!(c.kdf_salt_b64.len(), 24);
    assert_ne!(Config::generate_salt(), Config::generate_salt());
    let info = DBInfo::default();
    assert!(info.name.is_empty() && info.owner.is_empty());
    let s = DatabaseStats::default();
    assert_eq!(s.total_size_bytes, 0);
    assert_eq!(s.file_count, 0);
}

#[test]
fn stats_update_replaces() {
    let mut s = DatabaseStats::default();
    let mut t = DatabaseStats::default();
    t.file_count = 3;
    t.metadata_size = 9;
    s.update(&t);
    assert_eq!(s.file_count, 3);
    assert_eq!(s.metadata_size, 9);
}

#[test]
fn load_or_create_new_and_existing() {
    let created = Config::load_or_create(&args("pw"), "/r/.config.json", None).unwrap();
    assert!(created.is_nested);
    assert_eq!(created.db_info.owner, "ann");
    assert_eq!(created.db_info.description, "notes");
    assert_eq!(created.file_path.as_deref(), Some("/r/.config.json"));
    assert!(created.check_verifier("pw"));
    assert!(!created.check_verifier("pw2"));
    let again = Config::load_or_create(&args("pw"), "/moved/.config.json", Some(created.duplicate())).unwrap();
    assert_eq!(again.kdf_salt_b64, created.kdf_salt_b64);
    assert_eq!(again.file_path.as_deref(), Some("/moved/.config.json"));
    let denied = Config::load_or_create(&args("nope"), "/r/.config.json", Some(created.duplicate()));
    assert_eq!(denied.err(), Some(VaultError::Auth));
}

#[test]
fn verifier_for_a_password() {
    let c = Config::default();
    let (v, k) = c.encrypt_verifier("secret").unwrap();
    let mut with_v = c.duplicate();
    with_v.verifier_b64 = v;
    assert!(with_v.check_verifier("secret"));
    assert_eq!(k, c.derive_master_key("secret").unwrap());
    let mut bad_salt = c.duplicate();
    bad_salt.kdf_salt_b64 = "%%%".to_string();
    assert!(bad_salt.encrypt_verifier("secret").is_none());
    assert!(!bad_salt.check_verifier("secret"));
}
