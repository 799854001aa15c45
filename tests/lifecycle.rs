use dataseal::folders::MAX_FOLDER_NAME_BYTES;
use dataseal::structs::{Database, DatabaseArguments, DatabaseMeta, FileEntry, VaultError};

fn vault(password: &str) -> Database {
    let args = DatabaseArguments {
        db_name: "main".to_string(),
        owner: "o".to_string(),
        description: "d".to_string(),
        master_password: password.to_string(),
        is_nested: false,
        root_directory: "/v".to_string(),
    };
    Database::with_dir(&args, None, DatabaseMeta::new(), DatabaseMeta::new(), DatabaseMeta::new(), Vec::new()).unwrap()
}

fn add(db: &mut Database, name: &str, file: &str, size: u64) -> FileEntry {
    let e = db.plan_add_file(name, file, "TXT", "documents/text", "0.1", size).unwrap();
    let copy = FileEntry {
        name: e.name.clone(),
        file_name: e.file_name.clone(),
        encrypted_item_key: e.encrypted_item_key.clone(),
        file_path: e.file_path.clone(),
        size: e.size.clone(),
        extension: e.extension.clone(),
        is_encrypted: e.is_encrypted,
        is_recycled: e.is_recycled,
        created_at: e.created_at.clone(),
        updated_at: e.updated_at.clone(),
    };
    db.commit_add_file(e).unwrap();
    copy
}

#[test]
fn password_delete_restore_round_trip() {
    let mut db = vault("pw");
    db.add_password("mail", "s3cret").unwrap();
    let key = db.meta.decrypted_meta.data.passwords[0].encrypted_item_key.clone();
    db.delete_password("mail").unwrap();
    assert!(db.meta.decrypted_meta.data.passwords.is_empty());
    assert!(db.meta.trash_meta.data.passwords[0].is_recycled);
    db.restore_password("mail").unwrap();
    let back = &db.meta.decrypted_meta.data.passwords[0];
    assert_eq!(back.name, "mail");
    assert_eq!(back.password, "s3cret");
    assert_eq!(back.encrypted_item_key, key);
    assert!(!back.is_recycled);
    assert!(db.meta.trash_meta.data.passwords.is_empty());
}

#[test]
fn restore_takes_smallest_free_suffix() {
    let mut db = vault("pw");
    db.add_password("mail", "old").unwrap();
    db.delete_password("mail").unwrap();
    db.add_password("mail", "new").unwrap();
    db.add_password("mail1", "x").unwrap();
    db.restore_password("mail").unwrap();
    let last = db.meta.decrypted_meta.data.passwords.last().unwrap();
    assert_eq!(last.name, "mail2");
    assert_eq!(last.password, "old");
    assert_eq!(db.get_unique_password_name("fresh"), "fresh");
    assert_eq!(db.get_unique_password_name("mail"), "mail3");
}

#[test]
fn restore_missing_password_not_found() {
    let mut db = vault("pw");
    assert_eq!(db.restore_password("ghost"), Err(VaultError::NotFound));
    assert_eq!(db.delete_password("ghost"), Err(VaultError::NotFound));
}

#[test]
fn bulk_delete_and_restore_passwords() {
    let mut db = vault("pw");
    assert!(!db.restore_all_passwords());
    db.add_password("a", "1").unwrap();
    db.add_password("b", "2").unwrap();
    assert!(db.delete_all_passwords());
    assert!(db.meta.decrypted_meta.data.passwords.is_empty());
    assert_eq!(db.meta.trash_meta.data.passwords.len(), 2);
    assert!(db.meta.trash_meta.data.passwords.iter().all(|p| p.is_recycled));
    db.add_password("a", "3").unwrap();
    assert!(db.restore_all_passwords());
    let names: Vec<&str> = db.meta.decrypted_meta.data.passwords.iter().map(|p| p.name.as_str()).collect();
    assert_eq!(names, vec!["a", "a1", "b"]);
}

#[test]
fn purge_is_final() {
    let mut db = vault("pw");
    db.add_password("p", "1").unwrap();
    add(&mut db, "f", "f.txt", 10);
    let del = db.plan_delete_file("f").unwrap();
    db.commit_delete_file("f", &del.target_path).unwrap();
    db.delete_password("p").unwrap();
    assert_eq!(db.empty_recycle_bin(), (1, 1, 0));
    assert_eq!(db.restore_password("p"), Err(VaultError::NotFound));
    assert_eq!(db.plan_restore_file("f", "documents/text").err(), Some(VaultError::NotFound));
    assert_eq!(db.empty_recycle_bin(), (0, 0, 0));
}

#[test]
fn capacity_enforced() {
    let mut db = vault("pw");
    db.config.max_file_size_mb = 1;
    let r = db.plan_add_file("big", "big.bin", "bin", "other/unknown", "1.5", 1_048_577);
    assert_eq!(r.err(), Some(VaultError::Capacity));
    assert!(db.meta.decrypted_meta.data.files.is_empty());
    assert!(db.plan_add_file("ok", "ok.bin", "bin", "other/unknown", "1.0", 1_048_576).is_ok());
}

#[test]
fn add_file_plans_paths_and_names() {
    let mut db = vault("pw");
    let e = add(&mut db, "doc", "notes.txt", 10);
    assert_eq!(e.file_name, "notes.txt");
    assert_eq!(e.file_path, "/v/.decrypted/.files/documents/text/notes.txt");
    assert_eq!(e.extension, "txt");
    assert_eq!(e.updated_at, "0");
    let e2 = add(&mut db, "doc2", "notes.txt", 10);
    assert_eq!(e2.file_name, "notes1.txt");
    let e3 = add(&mut db, "doc3", "notes.txt", 10);
    assert_eq!(e3.file_name, "notes2.txt");
    assert_eq!(db.plan_add_file("doc", "x.txt", "txt", "documents/text", "0", 1).err(), Some(VaultError::DuplicateName));
    assert_eq!(db.get_unique_file_name("README"), "README");
    assert_eq!(db.get_unique_file_name(".bashrc"), ".bashrc");
}

#[test]
fn unique_file_name_without_extension() {
    let mut db = vault("pw");
    add(&mut db, "a", "Makefile", 1);
    add(&mut db, "b", "archive.tar.gz", 1);
    assert_eq!(db.get_unique_file_name("Makefile"), "Makefile1");
    assert_eq!(db.get_unique_file_name("archive.tar.gz"), "archive.tar1.gz");
}

#[test]
fn file_encrypt_decrypt_transitions() {
    let mut db = vault("pw");
    add(&mut db, "doc", "a.txt", 3);
    let plan = db.plan_encrypt_file("doc").unwrap();
    assert_eq!(plan.target_path, "/v/.encrypted/.files/doc.enc");
    assert_eq!(plan.source_path, "/v/.decrypted/.files/documents/text/a.txt");
    assert_eq!(plan.item_key.len(), 32);
    let sealed = db.encrypt_file_data(b"abc", &plan.item_key);
    db.commit_encrypt_file("doc", &plan.target_path).unwrap();
    assert!(db.meta.decrypted_meta.data.files.is_empty());
    let enc = &db.meta.encrypted_meta.data.files[0];
    assert!(enc.is_encrypted);
    assert_eq!(enc.file_path, "/v/.encrypted/.files/doc.enc");
    assert_eq!(db.plan_encrypt_file("doc").err(), Some(VaultError::NotFound));
    let back = db.plan_decrypt_file("doc", "documents/text").unwrap();
    assert_eq!(back.target_path, "/v/.decrypted/.files/documents/text/a.txt");
    assert_eq!(db.decrypt_file_data(&sealed, &back.item_key).unwrap(), b"abc".to_vec());
    db.commit_decrypt_file("doc", &back.target_path).unwrap();
    assert!(!db.meta.decrypted_meta.data.files[0].is_encrypted);
    assert_eq!(db.commit_decrypt_file("doc", "x"), Err(VaultError::NotFound));
}

#[test]
fn file_with_bad_key_cannot_be_encrypted() {
    let mut db = vault("pw");
    add(&mut db, "doc", "a.txt", 3);
    db.meta.decrypted_meta.data.files[0].encrypted_item_key = "AAAA".to_string();
    assert_eq!(db.plan_encrypt_file("doc").err(), Some(VaultError::Crypto));
}

#[test]
fn file_delete_restore_round_trip() {
    let mut db = vault("pw");
    let orig = add(&mut db, "doc", "a.txt", 3);
    let del = db.plan_delete_file("doc").unwrap();
    assert_eq!(del.target_path, "/v/.recycle_bin/.files/a.txt");
    db.commit_delete_file("doc", &del.target_path).unwrap();
    assert!(db.meta.trash_meta.data.files[0].is_recycled);
    add(&mut db, "doc", "a.txt", 3);
    let plan = db.plan_restore_file("doc", "documents/text").unwrap();
    assert_eq!(plan.new_name, "doc1");
    assert_eq!(plan.new_file_name, "a1.txt");
    assert_eq!(plan.target_path, "/v/.decrypted/.files/documents/text/a1.txt");
    assert_eq!(plan.source_path, "/v/.recycle_bin/.files/a.txt");
    db.commit_restore_file(&plan).unwrap();
    let back = db.meta.decrypted_meta.data.files.last().unwrap();
    assert_eq!(back.name, "doc1");
    assert_eq!(back.encrypted_item_key, orig.encrypted_item_key);
    assert!(!back.is_recycled);
    assert!(db.meta.trash_meta.data.files.is_empty());
    assert_eq!(db.commit_restore_file(&plan), Err(VaultError::NotFound));
}

#[test]
fn folder_names_validated() {
    let db = vault("pw");
    assert!(db.is_valid_folder_name("Photos 2024"));
    assert!(db.is_valid_folder_name("ünïcode"));
    assert!(!db.is_valid_folder_name(""));
    assert!(!db.is_valid_folder_name("   "));
    assert!(!db.is_valid_folder_name("."));
    assert!(!db.is_valid_folder_name(".."));
    assert!(!db.is_valid_folder_name("a/b"));
    assert!(!db.is_valid_folder_name("a:b"));
    assert!(!db.is_valid_folder_name("tab\there"));
    assert!(!db.is_valid_folder_name("trailing "));
    assert!(!db.is_valid_folder_name("trailing."));
    assert!(!db.is_valid_folder_name("two  spaces"));
    assert!(db.is_valid_folder_name(&"x".repeat(MAX_FOLDER_NAME_BYTES)));
    assert!(!db.is_valid_folder_name(&"x".repeat(MAX_FOLDER_NAME_BYTES + 1)));
}

#[test]
fn folder_create_and_delete() {
    let mut db = vault("pw");
    assert_eq!(db.plan_create_folder("bad/name").err(), Some(VaultError::InvalidName));
    let f = db.plan_create_folder("work").unwrap();
    assert_eq!(f.folder_path, "/v/.decrypted/.folders/work");
    assert!(f.is_empty);
    assert_eq!(f.size, "0");
    db.commit_create_folder(f).unwrap();
    assert_eq!(db.plan_create_folder("work").err(), Some(VaultError::DuplicateName));
    db.meta.decrypted_meta.data.folders[0].is_empty = false;
    assert_eq!(db.plan_delete_folder("work", false).err(), Some(VaultError::State));
    let plan = db.plan_delete_folder("work", true).unwrap();
    assert_eq!(plan.target_path, "/v/.recycle_bin/.folders/work");
    db.commit_delete_folder("work", &plan.target_path).unwrap();
    assert!(db.meta.decrypted_meta.data.folders.is_empty());
    assert!(db.meta.trash_meta.data.folders[0].is_recycled);
    assert_eq!(db.plan_delete_folder("work", true).err(), Some(VaultError::NotFound));
}

#[test]
fn search_is_case_insensitive() {
    let mut db = vault("pw");
    db.add_password("Email", "1").unwrap();
    db.add_password("bank", "2").unwrap();
    db.add_password("MyEMAILbackup", "3").unwrap();
    let hits: Vec<&str> = db.search_decrypted_passwords("email").iter().map(|p| p.name.as_str()).collect();
    assert_eq!(hits, vec!["Email", "MyEMAILbackup"]);
    assert_eq!(db.search_decrypted_passwords("").len(), 3);
    assert!(db.search_decrypted_passwords("zzz").is_empty());
    db.encrypt_password("bank").unwrap();
    assert_eq!(db.search_encrypted_passwords("BAN").len(), 1);
    assert_eq!(db.list_all_passwords().len(), 3);
    assert_eq!(db.list_encrypted_passwords().len(), 1);
    db.delete_password("Email").unwrap();
    assert_eq!(db.list_decrypted_passwords(Some("recycled")).len(), 1);
    assert_eq!(db.search_deleted_passwords("mail").len(), 1);
    assert_eq!(db.list_deleted_passwords().len(), 1);
}

#[test]
fn file_and_folder_listing() {
    let mut db = vault("pw");
    add(&mut db, "Report", "r.txt", 1);
    add(&mut db, "photo", "p.txt", 1);
    let f = db.plan_create_folder("Projects").unwrap();
    db.commit_create_folder(f).unwrap();
    assert_eq!(db.search_decrypted_files("REP").len(), 1);
    assert_eq!(db.list_decrypted_files(Some("active")).len(), 2);
    let del = db.plan_delete_file("photo").unwrap();
    db.commit_delete_file("photo", &del.target_path).unwrap();
    assert_eq!(db.list_decrypted_files(Some("recycled")).len(), 1);
    assert_eq!(db.list_decrypted_files(None).len(), 2);
    assert_eq!(db.list_deleted_files().len(), 1);
    assert_eq!(db.search_deleted_files("PHO").len(), 1);
    assert_eq!(db.list_all_files().len(), 1);
    assert!(db.list_encrypted_files().is_empty());
    assert!(db.search_encrypted_files("r").is_empty());
    assert_eq!(db.search_all_folders("proj").len(), 1);
    assert_eq!(db.search_decrypted_folders("JECT").len(), 1);
    assert_eq!(db.list_decrypted_folders().len(), 1);
    assert_eq!(db.list_all_folders().len(), 1);
    assert!(db.list_encrypted_folders().is_empty());
    assert!(db.search_encrypted_folders("p").is_empty());
    assert!(db.list_deleted_folders().is_empty());
    assert!(db.list_recycled_folders().is_empty());
    assert!(db.search_deleted_folders("p").is_empty());
}

#[test]
fn trashed_files_with_same_stored_name_do_not_collide() {
    let mut db = vault("pw");
    add(&mut db, "one", "a.txt", 1);
    let first = db.plan_delete_file("one").unwrap();
    db.commit_delete_file("one", &first.target_path).unwrap();
    add(&mut db, "two", "a.txt", 1);
    let second = db.plan_delete_file("two").unwrap();
    assert_eq!(first.target_path, "/v/.recycle_bin/.files/a.txt");
    assert_eq!(second.target_path, "/v/.recycle_bin/.files/a1.txt");
    db.commit_delete_file("two", &second.target_path).unwrap();
    let plan = db.plan_restore_file("one", "documents/text").unwrap();
    assert_eq!(plan.source_path, "/v/.recycle_bin/.files/a.txt");
}

#[test]
fn trashed_folders_with_same_name_do_not_collide() {
    let mut db = vault("pw");
    for _ in 0..2 {
        let f = db.plan_create_folder("work").unwrap();
        db.commit_create_folder(f).unwrap();
        let plan = db.plan_delete_folder("work", false).unwrap();
        db.commit_delete_folder("work", &plan.target_path).unwrap();
    }
    assert_eq!(db.meta.trash_meta.data.folders[0].folder_path, "/v/.recycle_bin/.folders/work");
    assert_eq!(db.meta.trash_meta.data.folders[1].folder_path, "/v/.recycle_bin/.folders/work1");
}
