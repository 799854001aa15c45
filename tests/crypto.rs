use dataseal::enc_keys::{
    decrypt_with_key, derive_key, encrypt_with_key, generate_item_key, generate_nonce, unwrap_item_key,
    wrap_item_key,
};
use dataseal::instance::is_system_path;
use dataseal::structs::{Database, DatabaseArguments, DatabaseMeta};

fn vault(password: &str) -> Database {
    let args = DatabaseArguments {
        db_name: "t".to_string(),
        owner: "o".to_string(),
        description: "d".to_string(),
        master_password: password.to_string(),
        is_nested: false,
        root_directory: "/tmp/vault".to_string(),
    };
    Database::with_dir(&args, None, DatabaseMeta::new(), DatabaseMeta::new(), DatabaseMeta::new(), Vec::new()).unwrap()
}

#[test]
fn item_key_round_trip() {
    for _ in 0..20 {
        let k = generate_item_key();
        let m = generate_item_key();
        assert_eq!(k.len(), 32);
        let w = wrap_item_key(&k, &m).unwrap();
        assert_eq!(unwrap_item_key(&w, &m).unwrap(), k);
    }
}

#[test]
fn wrapped_key_is_base64_of_nonce_and_ciphertext() {
    let k = generate_item_key();
    let m = generate_item_key();
    let w = wrap_item_key(&k, &m).unwrap();
    // 12 + 32 + 16 = 60 bytes, which is 80 base64 characters
    assert_eq!(w.len(), 80);
    assert_ne!(w.as_bytes(), &k[..]);
}

#[test]
fn unwrap_rejects_wrong_master_key() {
    let k = generate_item_key();
    let m1 = generate_item_key();
    let m2 = generate_item_key();
    let w = wrap_item_key(&k, &m1).unwrap();
    assert!(unwrap_item_key(&w, &m2).is_none());
    assert!(unwrap_item_key("not base64!!", &m1).is_none());
}

#[test]
fn string_round_trip() {
    let db = vault("pw");
    let key = generate_item_key();
    for s in ["", "secret1", "héllo wörld ✓ 🔐", "a\nb\tc"] {
        let c = db.encrypt_string(s, &key).unwrap();
        assert_ne!(c, s);
        assert_eq!(db.decrypt_string(&c, &key).unwrap(), s);
    }
}

#[test]
fn string_wrong_key_rejected() {
    let db = vault("pw");
    let k1 = generate_item_key();
    let k2 = generate_item_key();
    let c = db.encrypt_string("secret", &k1).unwrap();
    assert!(db.decrypt_string(&c, &k2).is_none());
}

#[test]
fn decrypt_rejects_short_and_altered_data() {
    let key = generate_item_key();
    assert!(decrypt_with_key(&key, &[1, 2, 3]).is_none());
    assert!(decrypt_with_key(&key, &[0u8; 27]).is_none());
    let mut data = encrypt_with_key(&key, b"payload").unwrap();
    assert_eq!(data.len(), 12 + 7 + 16);
    assert_eq!(decrypt_with_key(&key, &data).unwrap(), b"payload".to_vec());
    let last = data.len() - 1;
    data[last] ^= 1;
    assert!(decrypt_with_key(&key, &data).is_none());
}

#[test]
fn nonces_differ() {
    let a = generate_nonce();
    let b = generate_nonce();
    assert_eq!(a.len(), 12);
    assert_ne!(a, b);
}

#[test]
fn derive_key_is_deterministic() {
    let a = derive_key("c2FsdHNhbHRzYWx0c2FsdA==", "password").unwrap();
    let b = derive_key("c2FsdHNhbHRzYWx0c2FsdA==", "password").unwrap();
    let c = derive_key("c2FsdHNhbHRzYWx0c2FsdA==", "passwore").unwrap();
    assert_eq!(a, b);
    assert_ne!(a, c);
    assert!(derive_key("***", "password").is_none());
}

#[test]
fn file_data_round_trip_multi_chunk() {
    let db = vault("pw");
    let key = generate_item_key();
    let data: Vec<u8> = (0..150_000u32).map(|i| (i % 251) as u8).collect();
    let framed = db.encrypt_file_data(&data, &key);
    // three chunks: 65536, 65536, 18928 bytes, each framed with 4 + 12 + 16 bytes
    assert_eq!(framed.len(), 150_000 + 3 * 32);
    assert_eq!(db.decrypt_file_data(&framed, &key).unwrap(), data);
}

#[test]
fn file_data_exact_chunk_and_empty() {
    let db = vault("pw");
    let key = generate_item_key();
    let data = vec![7u8; 65536];
    let framed = db.encrypt_file_data(&data, &key);
    assert_eq!(framed.len(), 65536 + 32);
    assert_eq!(db.decrypt_file_data(&framed, &key).unwrap(), data);
    let empty = db.encrypt_file_data(&[], &key);
    assert!(empty.is_empty());
    assert_eq!(db.decrypt_file_data(&empty, &key).unwrap(), Vec::<u8>::new());
}

#[test]
fn file_data_wrong_key_or_truncated_fails() {
    let db = vault("pw");
    let key = generate_item_key();
    let other = generate_item_key();
    let data = vec![1u8; 70_000];
    let framed = db.encrypt_file_data(&data, &key);
    assert!(db.decrypt_file_data(&framed, &other).is_none());
    assert!(db.decrypt_file_data(&framed[..framed.len() - 1], &key).is_none());
    assert!(db.decrypt_file_data(&framed[..3], &key).is_none());
}

#[test]
fn system_paths_are_recognised() {
    assert!(is_system_path("/usr/local/bin"));
    assert!(is_system_path("/OPT/tool"));
    assert!(is_system_path("C:\\Program Files\\DataSeal"));
    assert!(!is_system_path("/home/user/dataseal"));
}
