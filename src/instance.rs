//! Assembling an open vault: the on-disk layout under a root directory,
//! the configuration decision, and the master key.
use vstd::prelude::*;
use vstd::string::{StrSliceExecFns, StringExecFns};
use crate::config::accepts;
use crate::enc_keys::derived_key;
use crate::primitives::{lowercase_of, to_lowercase};
use crate::search::{chars_of, name_matches, occurs_in};
use crate::structs::{
    Config, Database, DatabaseArguments, DatabaseMeta, Directories, Master, Meta, MetaType,
    NestedDatabaseMetaType, NestedDatabaseRecord, VaultError,
};

verus! {

/// `s` without the slashes it ends with.
pub open spec fn trim_trailing_slashes(s: Seq<char>) -> Seq<char>
    decreases s.len(),
{
    if s.len() > 0 && s.last() == '/' {
        trim_trailing_slashes(s.drop_last())
    } else {
        s
    }
}

/// The directory layout of a vault rooted at `root`.
pub open spec fn is_layout_of(d: Directories, root: Seq<char>) -> bool {
    let r = trim_trailing_slashes(root);
    &&& d.root_directory@ == r
    &&& d.decrypted_dir@ == r + "/.decrypted"@
    &&& d.decrypted_files_dir@ == r + "/.decrypted"@ + "/.files"@
    &&& d.decrypted_folders_dir@ == r + "/.decrypted"@ + "/.folders"@
    &&& d.encrypted_dir@ == r + "/.encrypted"@
    &&& d.encrypted_files_dir@ == r + "/.encrypted"@ + "/.files"@
    &&& d.encrypted_folders_dir@ == r + "/.encrypted"@ + "/.folders"@
    &&& d.recycle_dir@ == r + "/.recycle_bin"@
    &&& d.recycle_files_dir@ == r + "/.recycle_bin"@ + "/.files"@
    &&& d.recycle_folders_dir@ == r + "/.recycle_bin"@ + "/.folders"@
    &&& d.nested_db_dir@ == r + "/.nested"@
}

fn concat(a: &str, b: &str) -> (r: String)
    ensures
        r@ == a@ + b@,
{
    let mut s = String::from_str(a);
    s.append(b);
    s
}

fn trimmed_root(root: &str) -> (r: String)
    ensures
        r@ == trim_trailing_slashes(root@),
{
    let mut n = root.unicode_len();
    assert(root@.subrange(0, n as int) =~= root@);
    while n > 0 && root.get_char(n - 1) == '/'
        invariant
            n <= root@.len(),
            trim_trailing_slashes(root@) == trim_trailing_slashes(root@.subrange(0, n as int)),
        decreases n,
    {
        let ghost s = root@.subrange(0, n as int);
        assert(s.drop_last() =~= root@.subrange(0, n - 1));
        n = n - 1;
    }
    let ghost s = root@.subrange(0, n as int);
    assert(n > 0 ==> s.last() == root@[n - 1]);
    assert(trim_trailing_slashes(s) == s);
    String::from_str(root.substring_char(0, n))
}

/// `p` is a prefix of `s`.
pub open spec fn starts_with(s: Seq<char>, p: Seq<char>) -> bool {
    p.len() <= s.len() && s.subrange(0, p.len() as int) == p
}

/// A lowercased path lies under a system location of Linux, Windows or
/// macOS, where a vault must not be kept next to the program.
pub open spec fn system_path(s: Seq<char>) -> bool {
    ||| starts_with(s, "/bin"@)
    ||| starts_with(s, "/sbin"@)
    ||| starts_with(s, "/lib"@)
    ||| starts_with(s, "/lib64"@)
    ||| starts_with(s, "/usr"@)
    ||| starts_with(s, "/etc"@)
    ||| starts_with(s, "/var"@)
    ||| starts_with(s, "/opt"@)
    ||| starts_with(s, "/snap"@)
    ||| starts_with(s, "/applications"@)
    ||| starts_with(s, "/system"@)
    ||| starts_with(s, "/library"@)
    ||| occurs_in("\\windows\\system32"@, s)
    ||| occurs_in("\\windows"@, s)
    ||| occurs_in("\\program files"@, s)
    ||| occurs_in("\\program files (x86)"@, s)
    ||| occurs_in("\\programdata"@, s)
    ||| occurs_in("\\appdata\\local\\programs"@, s)
    ||| occurs_in("\\users\\default"@, s)
    ||| occurs_in("\\users\\public"@, s)
}

fn starts_with_text(s: &str, p: &str) -> (r: bool)
    ensures
        r == starts_with(s@, p@),
{
    let a = chars_of(s);
    let b = chars_of(p);
    if b.len() > a.len() {
        return false;
    }
    let mut i: usize = 0;
    while i < b.len()
        invariant
            a@ == s@,
            b@ == p@,
            b@.len() <= a@.len(),
            0 <= i <= b@.len(),
            forall|j: int| 0 <= j < i ==> a@[j] == b@[j],
        decreases b@.len() - i,
    {
        if a[i] != b[i] {
            assert(s@.subrange(0, p@.len() as int)[i as int] != p@[i as int]);
            return false;
        }
        i = i + 1;
    }
    assert(s@.subrange(0, p@.len() as int) =~= p@);
    true
}

/// Whether `path`, lowercased, lies under a system location.
pub fn is_system_path(path: &str) -> (r: bool)
    ensures
        r == system_path(lowercase_of(path@)),
{
    let lower = to_lowercase(path);
    starts_with_text(lower.as_str(), "/bin")
        || starts_with_text(lower.as_str(), "/sbin")
        || starts_with_text(lower.as_str(), "/lib")
        || starts_with_text(lower.as_str(), "/lib64")
        || starts_with_text(lower.as_str(), "/usr")
        || starts_with_text(lower.as_str(), "/etc")
        || starts_with_text(lower.as_str(), "/var")
        || starts_with_text(lower.as_str(), "/opt")
        || starts_with_text(lower.as_str(), "/snap")
        || starts_with_text(lower.as_str(), "/applications")
        || starts_with_text(lower.as_str(), "/system")
        || starts_with_text(lower.as_str(), "/library")
        || name_matches(lower.as_str(), "\\windows\\system32")
        || name_matches(lower.as_str(), "\\windows")
        || name_matches(lower.as_str(), "\\program files")
        || name_matches(lower.as_str(), "\\program files (x86)")
        || name_matches(lower.as_str(), "\\programdata")
        || name_matches(lower.as_str(), "\\appdata\\local\\programs")
        || name_matches(lower.as_str(), "\\users\\default")
        || name_matches(lower.as_str(), "\\users\\public")
}

impl Directories {
    /// The directory layout of a vault rooted at `root`.
    pub fn layout(root: &str) -> (r: Directories)
        ensures
            is_layout_of(r, root@),
    {
        let r = trimmed_root(root);
        let decrypted_dir = concat(r.as_str(), "/.decrypted");
        let encrypted_dir = concat(r.as_str(), "/.encrypted");
        let recycle_dir = concat(r.as_str(), "/.recycle_bin");
        Directories {
            decrypted_files_dir: concat(decrypted_dir.as_str(), "/.files"),
            decrypted_folders_dir: concat(decrypted_dir.as_str(), "/.folders"),
            encrypted_files_dir: concat(encrypted_dir.as_str(), "/.files"),
            encrypted_folders_dir: concat(encrypted_dir.as_str(), "/.folders"),
            recycle_files_dir: concat(recycle_dir.as_str(), "/.files"),
            recycle_folders_dir: concat(recycle_dir.as_str(), "/.folders"),
            nested_db_dir: concat(r.as_str(), "/.nested"),
            decrypted_dir,
            encrypted_dir,
            recycle_dir,
            root_directory: r,
        }
    }

    /// Where the configuration of the vault is kept.
    pub fn config_file(&self) -> (r: String)
        ensures
            r@ == self.root_directory@ + "/.config.json"@,
    {
        concat(self.root_directory.as_str(), "/.config.json")
    }

    /// Where the active partition is kept.
    pub fn decrypted_meta_file(&self) -> (r: String)
        ensures
            r@ == self.decrypted_dir@ + "/.meta.json"@,
    {
        concat(self.decrypted_dir.as_str(), "/.meta.json")
    }

    /// Where the encrypted partition is kept.
    pub fn encrypted_meta_file(&self) -> (r: String)
        ensures
            r@ == self.encrypted_dir@ + "/.meta.json"@,
    {
        concat(self.encrypted_dir.as_str(), "/.meta.json")
    }

    /// Where the trash partition is kept.
    pub fn trash_meta_file(&self) -> (r: String)
        ensures
            r@ == self.recycle_dir@ + "/.trash_meta.json"@,
    {
        concat(self.recycle_dir.as_str(), "/.trash_meta.json")
    }

    /// Where the child-vault registry is kept.
    pub fn nested_meta_file(&self) -> (r: String)
        ensures
            r@ == self.nested_db_dir@ + "/.nested_db_record.json"@,
    {
        concat(self.nested_db_dir.as_str(), "/.nested_db_record.json")
    }
}

impl DatabaseMeta {
    /// An empty partition.
    pub fn new() -> (r: DatabaseMeta)
        ensures
            r.folders@.len() == 0 && r.passwords@.len() == 0 && r.files@.len() == 0,
    {
        DatabaseMeta { folders: Vec::new(), passwords: Vec::new(), files: Vec::new() }
    }
}

impl Database {
    /// Opens (or, with no stored configuration, creates) the vault of
    /// `args` from what was read from its root: the stored configuration
    /// and the three partitions and child registry. The configuration is
    /// decided by `Config::load_or_create`; the master key is derived from
    /// the password and the salt. Fails with `Auth` when the password does
    /// not open the stored verifier.
    pub fn with_dir(
        args: &DatabaseArguments,
        stored: Option<Config>,
        decrypted: DatabaseMeta,
        encrypted: DatabaseMeta,
        trash: DatabaseMeta,
        nested: Vec<NestedDatabaseRecord>,
    ) -> (r: Result<Database, VaultError>)
        ensures
            stored is None ==> r is Ok,
            stored matches Some(s) ==> (r is Ok <==> accepts(s, args.master_password@)),
            r is Err ==> r == Err::<Database, VaultError>(VaultError::Auth),
            r matches Ok(db) ==> {
                &&& is_layout_of(db.directories, args.root_directory@)
                &&& accepts(db.config, args.master_password@)
                &&& derived_key(db.config.kdf_salt_b64@, args.master_password@) == Some(db.master.key@)
                &&& db.master.password matches Some(p) && p@ == args.master_password@
                &&& (stored matches Some(s) ==> db.config.kdf_salt_b64 == s.kdf_salt_b64 && db.config.verifier_b64 == s.verifier_b64)
                &&& db.active() == decrypted && db.encrypted() == encrypted && db.trash() == trash
                &&& db.meta.nested_db_meta.data == nested
            },
    {
        let directories = Directories::layout(args.root_directory.as_str());
        let config_path = directories.config_file();
        let config = match Config::load_or_create(args, config_path.as_str(), stored) {
            Ok(c) => c,
            Err(e) => return Err(e),
        };
        let key = match config.derive_master_key(args.master_password.as_str()) {
            Some(k) => k,
            None => {
                assert(false);
                return Err(VaultError::Auth);
            },
        };
        let meta = Meta {
            decrypted_meta: MetaType { data: decrypted, file_path: directories.decrypted_meta_file() },
            encrypted_meta: MetaType { data: encrypted, file_path: directories.encrypted_meta_file() },
            trash_meta: MetaType { data: trash, file_path: directories.trash_meta_file() },
            nested_db_meta: NestedDatabaseMetaType { data: nested, file_path: directories.nested_meta_file() },
        };
        Ok(Database {
            master: Master { key, password: Some(args.master_password.clone()) },
            directories,
            meta,
            config,
        })
    }
}

} // verus!
