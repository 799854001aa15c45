use dataseal::nested_db::nested_database_exists;
use dataseal::structs::{Database, DatabaseArguments, DatabaseMeta, VaultError};

fn args(name: &str, password: &str, root: &str) -> DatabaseArguments {
    DatabaseArguments {
        db_name: name.to_string(),
        owner: "owner".to_string(),
        description: "child".to_string(),
        master_password: password.to_string(),
        is_nested: false,
        root_directory: root.to_string(),
    }
}

fn open(a: &DatabaseArguments, stored: Option<dataseal::structs::Config>) -> Result<Database, VaultError> {
    Database::with_dir(a, stored, DatabaseMeta::new(), DatabaseMeta::new(), DatabaseMeta::new(), Vec::new())
}

#[test]
fn nested_isolation() {
    let mut parent = open(&args("root", "P1", "/p"), None).unwrap();
    let child_args = parent.plan_nested_database(&args("kid", "P2", "")).unwrap();
    assert!(child_args.is_nested);
    assert_eq!(child_args.root_directory, "/p/.nested/kid");
    let child = open(&child_args, None).unwrap();
    assert!(child.config.is_nested);
    parent.create_nested_database(&child_args).unwrap();
    assert!(nested_database_exists(&parent, "kid"));
    assert_eq!(parent.plan_nested_database(&args("kid", "P3", "")).err(), Some(VaultError::DuplicateName));

    let with_p1 = parent.login_nested_database("kid", "P1").unwrap();
    assert_eq!(with_p1.root_directory, "/p/.nested/kid");
    assert_eq!(open(&with_p1, Some(child.config.duplicate())).err(), Some(VaultError::Auth));

    parent.change_master_password_independent("P1", "P1b").unwrap();
    assert!(nested_database_exists(&parent, "kid"));
    let with_p2 = parent.login_nested_database("kid", "P2").unwrap();
    let reopened = open(&with_p2, Some(child.config.duplicate())).unwrap();
    assert_eq!(reopened.master.key, child.master.key);
    assert_ne!(reopened.master.key, parent.master.key);
}

#[test]
fn nested_registry_errors_and_delete() {
    let mut parent = open(&args("root", "P1", "/p"), None).unwrap();
    assert_eq!(parent.login_nested_database("none", "x").err(), Some(VaultError::NotFound));
    assert_eq!(parent.delete_nested_database("none").err(), Some(VaultError::NotFound));
    let a = parent.plan_nested_database(&args("a", "A", "")).unwrap();
    parent.create_nested_database(&a).unwrap();
    assert_eq!(parent.create_nested_database(&a), Err(VaultError::DuplicateName));
    let rec = parent.delete_nested_database("a").unwrap();
    assert_eq!(rec.db_name, "a");
    assert_eq!(rec.db_path, "/p/.nested/a");
    assert!(!nested_database_exists(&parent, "a"));
}
