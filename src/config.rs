//! The vault configuration: the KDF salt, the password verifier, and the
//! decisions taken when a vault is created or opened.
use vstd::prelude::*;
use vstd::string::StringExecFns;
use crate::enc_keys::{
    derive_key, derived_key, encrypt_with_key, generate_nonce as fresh_nonce, is_sealed_text_of,
    is_sealing_of, opened_text, NONCE_LEN,
};
use crate::primitives::{base64_bytes, base64_decode, base64_encode, base64_text, random_bytes, AEAD_TAG_LEN};
use crate::structs::{Config, DBInfo, DatabaseArguments, DatabaseStats, VaultError};
use crate::time::now;

verus! {

/// Length in bytes of a fresh KDF salt.
pub const SALT_LEN: usize = 16;

/// Size limit, in MiB, of a fresh vault.
pub const DEFAULT_MAX_FILE_SIZE_MB: u64 = 100;

/// The fixed plaintext behind every verifier: the bytes of `verify`.
pub open spec fn verifier_bytes() -> Seq<u8> {
    seq![118u8, 101u8, 114u8, 105u8, 102u8, 121u8]
}

/// `password` opens the verifier of a vault with this salt and verifier.
pub open spec fn password_matches(salt_text: Seq<char>, verifier_text: Seq<char>, password: Seq<char>) -> bool {
    match derived_key(salt_text, password) {
        Some(k) => opened_text(verifier_text, k) == Some(verifier_bytes()),
        None => false,
    }
}

/// `password` opens this configuration's verifier.
pub open spec fn accepts(cfg: Config, password: Seq<char>) -> bool {
    password_matches(cfg.kdf_salt_b64@, cfg.verifier_b64@, password)
}

/// Two configurations agree on everything but the verifier.
pub open spec fn same_but_verifier(a: Config, b: Config) -> bool {
    &&& a.db_version == b.db_version
    &&& a.kdf_salt_b64 == b.kdf_salt_b64
    &&& a.max_file_size_mb == b.max_file_size_mb
    &&& a.file_path == b.file_path
    &&& a.is_nested == b.is_nested
    &&& a.db_info == b.db_info
}

/// The configuration records `path` as its file.
pub open spec fn stored_at(cfg: Config, path: Seq<char>) -> bool {
    match cfg.file_path {
        Some(p) => p@ == path,
        None => false,
    }
}

fn verifier_plaintext() -> (r: Vec<u8>)
    ensures
        r@ == verifier_bytes(),
{
    let r: Vec<u8> = vec![118u8, 101u8, 114u8, 105u8, 102u8, 121u8];
    assert(r@ =~= verifier_bytes());
    r
}

fn bytes_equal(a: &[u8], b: &[u8]) -> (r: bool)
    ensures
        r == (a@ == b@),
{
    if a.len() != b.len() {
        return false;
    }
    let mut i: usize = 0;
    while i < a.len()
        invariant
            a@.len() == b@.len(),
            0 <= i <= a@.len(),
            forall|j: int| 0 <= j < i ==> a@[j] == b@[j],
        decreases a@.len() - i,
    {
        if a[i] != b[i] {
            return false;
        }
        i = i + 1;
    }
    assert(a@ =~= b@);
    true
}

/// A copy of an optional string.
pub fn duplicate_option_string(o: &Option<String>) -> (r: Option<String>)
    ensures
        r == *o,
{
    match o {
        Some(s) => Some(s.clone()),
        None => None,
    }
}

impl DatabaseStats {
    /// The statistics of an empty vault.
    pub open spec fn default_spec() -> DatabaseStats {
        DatabaseStats {
            total_size_bytes: 0,
            encrypted_files_size: 0,
            decrypted_files_size: 0,
            metadata_size: 0,
            file_count: 0,
            password_count: 0,
            encrypted_count: 0,
            decrypted_count: 0,
        }
    }

    /// All sizes and counts zero.
    pub fn default() -> (r: DatabaseStats)
        ensures
            r == DatabaseStats::default_spec(),
    {
        DatabaseStats {
            total_size_bytes: 0,
            encrypted_files_size: 0,
            decrypted_files_size: 0,
            metadata_size: 0,
            file_count: 0,
            password_count: 0,
            encrypted_count: 0,
            decrypted_count: 0,
        }
    }

    /// Replaces these statistics with `stats`.
    pub fn update(&mut self, stats: &DatabaseStats)
        ensures
            *final(self) == *stats,
    {
        *self = *stats;
    }
}

impl DBInfo {
    /// Empty descriptive fields and zero statistics.
    pub fn default() -> (r: DBInfo)
        ensures
            r.name@.len() == 0 && r.created_at@.len() == 0 && r.last_login@.len() == 0,
            r.owner@.len() == 0 && r.description@.len() == 0,
            r.stats == DatabaseStats::default_spec(),
    {
        DBInfo {
            name: String::new(),
            created_at: String::new(),
            last_login: String::new(),
            owner: String::new(),
            description: String::new(),
            stats: DatabaseStats::default(),
        }
    }

    /// A field-for-field copy.
    pub fn duplicate(&self) -> (r: DBInfo)
        ensures
            r == *self,
    {
        DBInfo {
            name: self.name.clone(),
            created_at: self.created_at.clone(),
            last_login: self.last_login.clone(),
            owner: self.owner.clone(),
            description: self.description.clone(),
            stats: self.stats,
        }
    }
}

impl Config {
    /// A fresh random salt of 16 bytes, as base64.
    pub fn generate_salt() -> (r: String)
        ensures
            exists|salt: Seq<u8>| salt.len() == SALT_LEN && r@ == #[trigger] base64_text(salt),
            base64_bytes(r@) is Some,
    {
        let salt = random_bytes(SALT_LEN);
        base64_encode(salt.as_slice())
    }

    /// A fresh configuration: version 0.1.0, a new salt, no verifier yet, a
    /// 100 MiB size limit.
    pub fn default() -> (r: Config)
        ensures
            r.db_version@ == "0.1.0"@,
            base64_bytes(r.kdf_salt_b64@) is Some,
            r.verifier_b64@.len() == 0,
            r.max_file_size_mb == DEFAULT_MAX_FILE_SIZE_MB,
            r.file_path is None,
            !r.is_nested,
            exists|salt: Seq<u8>| salt.len() == SALT_LEN && r.kdf_salt_b64@ == #[trigger] base64_text(salt),
            r.db_info.name@.len() == 0 && r.db_info.owner@.len() == 0,
            r.db_info.description@.len() == 0,
            r.db_info.created_at@.len() == 0 && r.db_info.last_login@.len() == 0,
            r.db_info.stats == DatabaseStats::default_spec(),
    {
        Config {
            db_version: String::from_str("0.1.0"),
            kdf_salt_b64: Self::generate_salt(),
            verifier_b64: String::new(),
            max_file_size_mb: DEFAULT_MAX_FILE_SIZE_MB,
            file_path: None,
            is_nested: false,
            db_info: DBInfo::default(),
        }
    }

    /// A field-for-field copy.
    pub fn duplicate(&self) -> (r: Config)
        ensures
            r == *self,
    {
        Config {
            db_version: self.db_version.clone(),
            kdf_salt_b64: self.kdf_salt_b64.clone(),
            verifier_b64: self.verifier_b64.clone(),
            max_file_size_mb: self.max_file_size_mb,
            file_path: duplicate_option_string(&self.file_path),
            is_nested: self.is_nested,
            db_info: self.db_info.duplicate(),
        }
    }

    /// A fresh random nonce.
    pub fn generate_nonce() -> (r: [u8; 12])
        ensures
            r@.len() == NONCE_LEN,
    {
        fresh_nonce()
    }

    /// The master key that `master_password` yields with this vault's salt;
    /// `None` when the stored salt is not valid base64.
    pub fn derive_master_key(&self, master_password: &str) -> (r: Option<[u8; 32]>)
        ensures
            match r {
                Some(k) => derived_key(self.kdf_salt_b64@, master_password@) == Some(k@),
                None => derived_key(self.kdf_salt_b64@, master_password@) is None,
            },
    {
        derive_key(&self.kdf_salt_b64, master_password)
    }

    /// A new verifier for `master_password`, with the master key it was
    /// sealed under; `None` exactly when the stored salt is not valid base64.
    pub fn encrypt_verifier(&self, master_password: &str) -> (r: Option<(String, [u8; 32])>)
        ensures
            r is Some <==> derived_key(self.kdf_salt_b64@, master_password@) is Some,
            r matches Some((v, k)) ==> derived_key(self.kdf_salt_b64@, master_password@) == Some(k@),
            r matches Some((v, k)) ==> is_sealed_text_of(v@, verifier_bytes(), k@),
            r matches Some((v, k)) ==> password_matches(self.kdf_salt_b64@, v@, master_password@),
            r matches Some((v, k)) ==> base64_bytes(v@) matches Some(b) && b.len() == NONCE_LEN + verifier_bytes().len() + AEAD_TAG_LEN,
    {
        let key = match self.derive_master_key(master_password) {
            Some(k) => k,
            None => return None,
        };
        let plaintext = verifier_plaintext();
        match encrypt_with_key(key.as_slice(), plaintext.as_slice()) {
            Some(data) => {
                let v = base64_encode(data.as_slice());
                assert(is_sealing_of(data@, key@, verifier_bytes()));
                Some((v, key))
            },
            None => None,
        }
    }

    /// Whether `master_password` opens this vault's verifier.
    pub fn check_verifier(&self, master_password: &str) -> (r: bool)
        ensures
            r == accepts(*self, master_password@),
    {
        let key = match self.derive_master_key(master_password) {
            Some(k) => k,
            None => return false,
        };
        let data = match base64_decode(&self.verifier_b64) {
            Some(d) => d,
            None => return false,
        };
        match crate::enc_keys::decrypt_with_key(key.as_slice(), data.as_slice()) {
            Some(pt) => {
                let expected = verifier_plaintext();
                bytes_equal(pt.as_slice(), expected.as_slice())
            },
            None => false,
        }
    }

    /// The master key and configuration that a change from `old_password`
    /// to `new_password` leads to, leaving this configuration untouched;
    /// `None` when `old_password` is wrong.
    pub fn change_master_password_pure(&self, old_password: &str, new_password: &str) -> (r: Option<([u8; 32], Config)>)
        ensures
            r is Some <==> accepts(*self, old_password@) && derived_key(self.kdf_salt_b64@, new_password@) is Some,
            r matches Some((k, c)) ==> derived_key(self.kdf_salt_b64@, new_password@) == Some(k@),
            r matches Some((k, c)) ==> same_but_verifier(c, *self) && accepts(c, new_password@),
    {
        if !self.check_verifier(old_password) {
            return None;
        }
        match self.encrypt_verifier(new_password) {
            Some((new_verifier, master_key)) => {
                let mut new_config = self.duplicate();
                new_config.verifier_b64 = new_verifier;
                Some((master_key, new_config))
            },
            None => None,
        }
    }

    /// Changes the verifier from `old_password` to `new_password` and returns
    /// the new master key; leaves the configuration as it was when
    /// `old_password` is wrong.
    pub fn change_master_password(&mut self, old_password: &str, new_password: &str) -> (r: Option<[u8; 32]>)
        ensures
            r is Some <==> accepts(*old(self), old_password@) && derived_key(old(self).kdf_salt_b64@, new_password@) is Some,
            r matches Some(k) ==> derived_key(old(self).kdf_salt_b64@, new_password@) == Some(k@),
            r matches Some(k) ==> same_but_verifier(*final(self), *old(self)) && accepts(*final(self), new_password@),
            r is None ==> *final(self) == *old(self),
    {
        if !self.check_verifier(old_password) {
            return None;
        }
        match self.encrypt_verifier(new_password) {
            Some((new_verifier, master_key)) => {
                self.verifier_b64 = new_verifier;
                Some(master_key)
            },
            None => None,
        }
    }

    /// The configuration to use for a vault whose config file lives at
    /// `path`. With no stored configuration a fresh one is made for `args`,
    /// sealed with its master password; a stored one is accepted only when
    /// that password opens its verifier.
    pub fn load_or_create(args: &DatabaseArguments, path: &str, stored: Option<Config>) -> (r: Result<Config, VaultError>)
        ensures
            stored is None ==> r is Ok,
            stored is None ==> (r matches Ok(c) ==> {
                &&& accepts(c, args.master_password@)
                &&& c.db_version@ == "0.1.0"@
                &&& c.max_file_size_mb == DEFAULT_MAX_FILE_SIZE_MB
                &&& c.is_nested == args.is_nested
                &&& stored_at(c, path@)
                &&& c.db_info.name@ == args.db_name@
                &&& c.db_info.owner@ == args.owner@
                &&& c.db_info.description@ == args.description@
            }),
            stored matches Some(s) ==> (r is Ok <==> accepts(s, args.master_password@)),
            stored matches Some(s) ==> (r is Err ==> r == Err::<Config, VaultError>(VaultError::Auth)),
            stored matches Some(s) ==> (r matches Ok(c) ==> {
                &&& c.kdf_salt_b64 == s.kdf_salt_b64
                &&& c.verifier_b64 == s.verifier_b64
                &&& c.db_version == s.db_version
                &&& c.max_file_size_mb == s.max_file_size_mb
                &&& c.is_nested == s.is_nested
                &&& stored_at(c, path@)
            }),
    {
        match stored {
            None => {
                let mut cfg = Self::default();
                cfg.is_nested = args.is_nested;
                match cfg.encrypt_verifier(&args.master_password) {
                    Some((verifier_b64, _key)) => {
                        cfg.verifier_b64 = verifier_b64;
                    },
                    None => {
                        assert(false);
                    },
                }
                cfg.file_path = Some(String::from_str(path));
                cfg.db_info.name = args.db_name.clone();
                cfg.db_info.owner = args.owner.clone();
                cfg.db_info.description = args.description.clone();
                cfg.db_info.created_at = now();
                cfg.db_info.last_login = now();
                Ok(cfg)
            },
            Some(mut cfg) => {
                cfg.file_path = Some(String::from_str(path));
                cfg.db_info.last_login = now();
                if cfg.check_verifier(&args.master_password) {
                    Ok(cfg)
                } else {
                    Err(VaultError::Auth)
                }
            },
        }
    }
}

} // verus!
