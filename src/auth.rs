//! Master-password rotation in two phases. `prepare_root_password_change_pure`
//! builds rewrapped copies of all three partitions and a new verifier
//! without touching the vault; only `apply_root_password_change` replaces
//! the live state, in one step.
use vstd::prelude::*;
use crate::config::{accepts, same_but_verifier};
use crate::enc_keys::{derived_key, opened_text, unwrap_item_key, wrap_item_key, KEY_LEN};
use crate::passwords::password_plaintext;
use crate::primitives::AEAD_MAX_PLAINTEXT;
use crate::structs::{
    Config, Database, DatabaseMeta, FileEntry, FolderEntry, PasswordEntry, PreparedRootChanges,
    VaultError,
};

verus! {

/// The stored key `eik` can be moved from `old_master` to a new master key:
/// it is empty (no key), or it opens under `old_master`.
pub open spec fn rewrappable(eik: Seq<char>, old_master: Seq<u8>) -> bool {
    eik.len() == 0 || match opened_text(eik, old_master) {
        Some(k) => k.len() <= AEAD_MAX_PLAINTEXT,
        None => false,
    }
}

/// `new_eik` holds under `new_master` the item key that `old_eik` holds
/// under `old_master`; an empty stored key stays empty.
pub open spec fn rewrapped(old_eik: Seq<char>, new_eik: Seq<char>, old_master: Seq<u8>, new_master: Seq<u8>) -> bool {
    if old_eik.len() == 0 {
        new_eik.len() == 0
    } else {
        opened_text(old_eik, old_master) is Some && opened_text(new_eik, new_master) == opened_text(old_eik, old_master)
    }
}

/// `n` is `o` with its stored key moved to `new_master`.
pub open spec fn password_rewrapped(o: PasswordEntry, n: PasswordEntry, old_master: Seq<u8>, new_master: Seq<u8>) -> bool {
    &&& n.name == o.name && n.password == o.password
    &&& n.is_encrypted == o.is_encrypted && n.is_recycled == o.is_recycled
    &&& n.created_at == o.created_at && n.updated_at == o.updated_at
    &&& rewrapped(o.encrypted_item_key@, n.encrypted_item_key@, old_master, new_master)
}

/// `n` is `o` with its stored key moved to `new_master`.
pub open spec fn file_rewrapped(o: FileEntry, n: FileEntry, old_master: Seq<u8>, new_master: Seq<u8>) -> bool {
    &&& n.name == o.name && n.file_name == o.file_name && n.file_path == o.file_path
    &&& n.size == o.size && n.extension == o.extension
    &&& n.is_encrypted == o.is_encrypted && n.is_recycled == o.is_recycled
    &&& n.created_at == o.created_at && n.updated_at == o.updated_at
    &&& rewrapped(o.encrypted_item_key@, n.encrypted_item_key@, old_master, new_master)
}

/// Every file of `o` has its stored key moved to `new_master` in `n`.
pub open spec fn files_rewrapped(o: Seq<FileEntry>, n: Seq<FileEntry>, old_master: Seq<u8>, new_master: Seq<u8>) -> bool {
    &&& n.len() == o.len()
    &&& forall|i: int| 0 <= i < o.len() ==> file_rewrapped(#[trigger] o[i], n[i], old_master, new_master)
}

/// `n` is `o` with its stored key, those of the files it holds, and those
/// of its whole sub-folder tree moved to `new_master`.
pub open spec fn folder_rewrapped(o: FolderEntry, n: FolderEntry, old_master: Seq<u8>, new_master: Seq<u8>) -> bool
    decreases o,
{
    &&& n.name == o.name && n.folder_path == o.folder_path && n.size == o.size
    &&& n.is_empty == o.is_empty && n.is_encrypted == o.is_encrypted && n.is_recycled == o.is_recycled
    &&& n.created_at == o.created_at && n.updated_at == o.updated_at
    &&& files_rewrapped(o.sub_files@, n.sub_files@, old_master, new_master)
    &&& rewrapped(o.encrypted_item_key@, n.encrypted_item_key@, old_master, new_master)
    &&& n.sub_folders@.len() == o.sub_folders@.len()
    &&& forall|i: int| 0 <= i < o.sub_folders@.len() ==> folder_rewrapped(
        #[trigger] o.sub_folders@[i],
        n.sub_folders@[i],
        old_master,
        new_master,
    )
}

/// Every stored key of the folder, of the files it holds and of its whole
/// sub-folder tree can be moved away from `old_master`.
pub open spec fn folder_rewrappable(f: FolderEntry, old_master: Seq<u8>) -> bool
    decreases f,
{
    &&& rewrappable(f.encrypted_item_key@, old_master)
    &&& files_rewrappable(f.sub_files@, old_master)
    &&& forall|i: int| 0 <= i < f.sub_folders@.len() ==> folder_rewrappable(#[trigger] f.sub_folders@[i], old_master)
}

/// Every item of the partition `o` is in `n`, in the same place, with its
/// stored key moved to `new_master`.
pub open spec fn partition_rewrapped(o: DatabaseMeta, n: DatabaseMeta, old_master: Seq<u8>, new_master: Seq<u8>) -> bool {
    &&& n.passwords@.len() == o.passwords@.len()
    &&& forall|i: int| 0 <= i < o.passwords@.len() ==> password_rewrapped(#[trigger] o.passwords@[i], n.passwords@[i], old_master, new_master)
    &&& files_rewrapped(o.files@, n.files@, old_master, new_master)
    &&& n.folders@.len() == o.folders@.len()
    &&& forall|i: int| 0 <= i < o.folders@.len() ==> folder_rewrapped(#[trigger] o.folders@[i], n.folders@[i], old_master, new_master)
}

/// Every file of `files` can be rewrapped.
pub open spec fn files_rewrappable(files: Seq<FileEntry>, old_master: Seq<u8>) -> bool {
    forall|i: int| 0 <= i < files.len() ==> rewrappable(#[trigger] files[i].encrypted_item_key@, old_master)
}

/// Every item of the partition can be rewrapped.
pub open spec fn partition_rewrappable(p: DatabaseMeta, old_master: Seq<u8>) -> bool {
    &&& forall|i: int| 0 <= i < p.passwords@.len() ==> rewrappable(#[trigger] p.passwords@[i].encrypted_item_key@, old_master)
    &&& files_rewrappable(p.files@, old_master)
    &&& forall|i: int| 0 <= i < p.folders@.len() ==> folder_rewrappable(#[trigger] p.folders@[i], old_master)
}

/// The changes that rotating from `old_password` to `new_password` commits.
pub open spec fn is_prepared_rotation(db: Database, old_master: Seq<u8>, new_password: Seq<char>, c: PreparedRootChanges) -> bool {
    &&& derived_key(db.config.kdf_salt_b64@, new_password) == Some(c.new_master_key@)
    &&& same_but_verifier(c.new_config, db.config)
    &&& accepts(c.new_config, new_password)
    &&& partition_rewrapped(db.active(), c.new_decrypted_meta, old_master, c.new_master_key@)
    &&& partition_rewrapped(db.encrypted(), c.new_encrypted_meta, old_master, c.new_master_key@)
    &&& partition_rewrapped(db.trash(), c.new_trash_meta, old_master, c.new_master_key@)
}

/// Rotation can go through: the old password opens the verifier, the salt
/// is valid, and every item key opens under the current master key.
pub open spec fn rotation_possible(db: Database, old_password: Seq<char>, old_master: Seq<u8>, new_password: Seq<char>) -> bool {
    &&& accepts(db.config, old_password)
    &&& derived_key(db.config.kdf_salt_b64@, new_password) is Some
    &&& partition_rewrappable(db.active(), old_master)
    &&& partition_rewrappable(db.encrypted(), old_master)
    &&& partition_rewrappable(db.trash(), old_master)
}

fn rewrap_key(eik: &String, old_master: &[u8], new_master: &[u8]) -> (r: Option<String>)
    requires
        old_master@.len() == KEY_LEN,
        new_master@.len() == KEY_LEN,
    ensures
        r is Some <==> rewrappable(eik@, old_master@),
        r matches Some(n) ==> rewrapped(eik@, n@, old_master@, new_master@),
{
    if eik.as_str().is_empty() {
        return Some(String::new());
    }
    let item_key = match unwrap_item_key(eik.as_str(), old_master) {
        Some(k) => k,
        None => return None,
    };
    wrap_item_key(item_key.as_slice(), new_master)
}

fn rewrap_passwords(v: &Vec<PasswordEntry>, old_master: &[u8], new_master: &[u8]) -> (r: Option<Vec<PasswordEntry>>)
    requires
        old_master@.len() == KEY_LEN,
        new_master@.len() == KEY_LEN,
    ensures
        r is Some <==> forall|i: int| 0 <= i < v@.len() ==> rewrappable(#[trigger] v@[i].encrypted_item_key@, old_master@),
        r matches Some(n) ==> n@.len() == v@.len() && forall|i: int| 0 <= i < v@.len() ==> password_rewrapped(#[trigger] v@[i], n@[i], old_master@, new_master@),
{
    let mut out: Vec<PasswordEntry> = Vec::new();
    let mut i: usize = 0;
    while i < v.len()
        invariant
            old_master@.len() == KEY_LEN,
            new_master@.len() == KEY_LEN,
            0 <= i <= v@.len(),
            out@.len() == i,
            forall|j: int| 0 <= j < i ==> rewrappable(#[trigger] v@[j].encrypted_item_key@, old_master@),
            forall|j: int| 0 <= j < i ==> password_rewrapped(#[trigger] v@[j], out@[j], old_master@, new_master@),
        decreases v@.len() - i,
    {
        let e = &v[i];
        let key = match rewrap_key(&e.encrypted_item_key, old_master, new_master) {
            Some(k) => k,
            None => return None,
        };
        out.push(PasswordEntry {
            name: e.name.clone(),
            password: e.password.clone(),
            encrypted_item_key: key,
            is_encrypted: e.is_encrypted,
            is_recycled: e.is_recycled,
            created_at: e.created_at.clone(),
            updated_at: e.updated_at.clone(),
        });
        i = i + 1;
    }
    Some(out)
}

fn rewrap_files(v: &Vec<FileEntry>, old_master: &[u8], new_master: &[u8]) -> (r: Option<Vec<FileEntry>>)
    requires
        old_master@.len() == KEY_LEN,
        new_master@.len() == KEY_LEN,
    ensures
        r is Some <==> files_rewrappable(v@, old_master@),
        r matches Some(n) ==> files_rewrapped(v@, n@, old_master@, new_master@),
{
    let mut out: Vec<FileEntry> = Vec::new();
    let mut i: usize = 0;
    while i < v.len()
        invariant
            old_master@.len() == KEY_LEN,
            new_master@.len() == KEY_LEN,
            0 <= i <= v@.len(),
            out@.len() == i,
            forall|j: int| 0 <= j < i ==> rewrappable(#[trigger] v@[j].encrypted_item_key@, old_master@),
            forall|j: int| 0 <= j < i ==> file_rewrapped(#[trigger] v@[j], out@[j], old_master@, new_master@),
        decreases v@.len() - i,
    {
        let e = &v[i];
        let key = match rewrap_key(&e.encrypted_item_key, old_master, new_master) {
            Some(k) => k,
            None => return None,
        };
        out.push(FileEntry {
            name: e.name.clone(),
            file_name: e.file_name.clone(),
            encrypted_item_key: key,
            file_path: e.file_path.clone(),
            size: e.size.clone(),
            extension: e.extension.clone(),
            is_encrypted: e.is_encrypted,
            is_recycled: e.is_recycled,
            created_at: e.created_at.clone(),
            updated_at: e.updated_at.clone(),
        });
        i = i + 1;
    }
    Some(out)
}

fn rewrap_folder(f: &FolderEntry, old_master: &[u8], new_master: &[u8]) -> (r: Option<FolderEntry>)
    requires
        old_master@.len() == KEY_LEN,
        new_master@.len() == KEY_LEN,
    ensures
        r is Some <==> folder_rewrappable(*f, old_master@),
        r matches Some(n) ==> folder_rewrapped(*f, n, old_master@, new_master@),
    decreases f,
{
    let key = match rewrap_key(&f.encrypted_item_key, old_master, new_master) {
        Some(k) => k,
        None => return None,
    };
    let sub_files = match rewrap_files(&f.sub_files, old_master, new_master) {
        Some(v) => v,
        None => return None,
    };
    let mut sub_folders: Vec<FolderEntry> = Vec::new();
    let mut i: usize = 0;
    while i < f.sub_folders.len()
        invariant
            old_master@.len() == KEY_LEN,
            new_master@.len() == KEY_LEN,
            0 <= i <= f.sub_folders@.len(),
            sub_folders@.len() == i,
            forall|j: int| 0 <= j < i ==> folder_rewrappable(#[trigger] f.sub_folders@[j], old_master@),
            forall|j: int| 0 <= j < i ==> folder_rewrapped(#[trigger] f.sub_folders@[j], sub_folders@[j], old_master@, new_master@),
        decreases f.sub_folders@.len() - i,
    {
        proof {
            assert(decreases_to!(*f => f.sub_folders@[i as int]));
        }
        match rewrap_folder(&f.sub_folders[i], old_master, new_master) {
            Some(n) => sub_folders.push(n),
            None => return None,
        }
        i = i + 1;
    }
    Some(FolderEntry {
        name: f.name.clone(),
        encrypted_item_key: key,
        folder_path: f.folder_path.clone(),
        sub_files,
        sub_folders,
        size: f.size.clone(),
        is_empty: f.is_empty,
        is_encrypted: f.is_encrypted,
        is_recycled: f.is_recycled,
        created_at: f.created_at.clone(),
        updated_at: f.updated_at.clone(),
    })
}

fn rewrap_folders(v: &Vec<FolderEntry>, old_master: &[u8], new_master: &[u8]) -> (r: Option<Vec<FolderEntry>>)
    requires
        old_master@.len() == KEY_LEN,
        new_master@.len() == KEY_LEN,
    ensures
        r is Some <==> forall|i: int| 0 <= i < v@.len() ==> folder_rewrappable(#[trigger] v@[i], old_master@),
        r matches Some(n) ==> n@.len() == v@.len() && forall|i: int| 0 <= i < v@.len() ==> folder_rewrapped(#[trigger] v@[i], n@[i], old_master@, new_master@),
{
    let mut out: Vec<FolderEntry> = Vec::new();
    let mut i: usize = 0;
    while i < v.len()
        invariant
            old_master@.len() == KEY_LEN,
            new_master@.len() == KEY_LEN,
            0 <= i <= v@.len(),
            out@.len() == i,
            forall|j: int| 0 <= j < i ==> folder_rewrappable(#[trigger] v@[j], old_master@),
            forall|j: int| 0 <= j < i ==> folder_rewrapped(#[trigger] v@[j], out@[j], old_master@, new_master@),
        decreases v@.len() - i,
    {
        match rewrap_folder(&v[i], old_master, new_master) {
            Some(n) => out.push(n),
            None => return None,
        }
        i = i + 1;
    }
    Some(out)
}

fn rewrap_partition(p: &DatabaseMeta, old_master: &[u8], new_master: &[u8]) -> (r: Option<DatabaseMeta>)
    requires
        old_master@.len() == KEY_LEN,
        new_master@.len() == KEY_LEN,
    ensures
        r is Some <==> partition_rewrappable(*p, old_master@),
        r matches Some(n) ==> partition_rewrapped(*p, n, old_master@, new_master@),
{
    let passwords = match rewrap_passwords(&p.passwords, old_master, new_master) {
        Some(v) => v,
        None => return None,
    };
    let files = match rewrap_files(&p.files, old_master, new_master) {
        Some(v) => v,
        None => return None,
    };
    let folders = match rewrap_folders(&p.folders, old_master, new_master) {
        Some(v) => v,
        None => return None,
    };
    Some(DatabaseMeta { folders, passwords, files })
}

impl Database {
    /// Whether `password` opens this vault's verifier.
    pub fn verify_master_password(&self, password: &str) -> (r: bool)
        ensures
            r == accepts(self.config, password@),
    {
        self.config.check_verifier(password)
    }

    /// The master key that `new_password` yields with this vault's salt.
    pub fn generate_new_master_key_pure(&self, new_password: &str) -> (r: Option<[u8; 32]>)
        ensures
            match r {
                Some(k) => derived_key(self.config.kdf_salt_b64@, new_password@) == Some(k@),
                None => derived_key(self.config.kdf_salt_b64@, new_password@) is None,
            },
    {
        self.config.derive_master_key(new_password)
    }

    /// A new verifier sealed under the master key of `password`.
    pub fn generate_verifier_pure(&self, password: &str) -> (r: Option<String>)
        ensures
            r is Some <==> derived_key(self.config.kdf_salt_b64@, password@) is Some,
            r matches Some(v) ==> crate::config::password_matches(self.config.kdf_salt_b64@, v@, password@),
    {
        match self.config.encrypt_verifier(password) {
            Some((v, _key)) => Some(v),
            None => None,
        }
    }

    /// The configuration after the change, when `old_password` is right.
    pub fn create_new_config_pure(&self, old_password: &str, new_password: &str) -> (r: Option<Config>)
        ensures
            r is Some <==> accepts(self.config, old_password@) && derived_key(self.config.kdf_salt_b64@, new_password@) is Some,
            r matches Some(c) ==> same_but_verifier(c, self.config) && accepts(c, new_password@),
    {
        if !self.config.check_verifier(old_password) {
            return None;
        }
        let new_verifier = match self.generate_verifier_pure(new_password) {
            Some(v) => v,
            None => return None,
        };
        let mut new_config = self.config.duplicate();
        new_config.verifier_b64 = new_verifier;
        Some(new_config)
    }

    /// Builds everything a rotation to `new_password` commits, reading the
    /// vault only: the new master key, the new configuration, and copies of
    /// the three partitions with every item key moved from
    /// `original_master_key` to the new key. Fails with `Auth` on a wrong
    /// `old_password` and with `Crypto` when any one item key cannot be
    /// moved.
    pub fn prepare_root_password_change_pure(
        &self,
        old_password: &str,
        new_password: &str,
        original_master_key: &[u8; 32],
    ) -> (r: Result<PreparedRootChanges, VaultError>)
        ensures
            r is Ok <==> rotation_possible(*self, old_password@, original_master_key@, new_password@),
            r matches Ok(c) ==> is_prepared_rotation(*self, original_master_key@, new_password@, c),
            !accepts(self.config, old_password@) ==> r == Err::<PreparedRootChanges, VaultError>(VaultError::Auth),
            accepts(self.config, old_password@) && r is Err ==> r == Err::<PreparedRootChanges, VaultError>(VaultError::Crypto),
    {
        let new_config = match self.create_new_config_pure(old_password, new_password) {
            Some(c) => c,
            None => {
                if !self.config.check_verifier(old_password) {
                    return Err(VaultError::Auth);
                }
                return Err(VaultError::Crypto);
            },
        };
        let new_master_key = match self.generate_new_master_key_pure(new_password) {
            Some(k) => k,
            None => return Err(VaultError::Crypto),
        };
        let old_key = original_master_key.as_slice();
        let new_key = new_master_key.as_slice();
        let new_decrypted_meta = match rewrap_partition(&self.meta.decrypted_meta.data, old_key, new_key) {
            Some(p) => p,
            None => return Err(VaultError::Crypto),
        };
        let new_encrypted_meta = match rewrap_partition(&self.meta.encrypted_meta.data, old_key, new_key) {
            Some(p) => p,
            None => return Err(VaultError::Crypto),
        };
        let new_trash_meta = match rewrap_partition(&self.meta.trash_meta.data, old_key, new_key) {
            Some(p) => p,
            None => return Err(VaultError::Crypto),
        };
        Ok(PreparedRootChanges {
            new_master_key,
            new_decrypted_meta,
            new_encrypted_meta,
            new_trash_meta,
            new_config,
        })
    }

    /// Commits prepared changes: master key, configuration and the three
    /// partitions are replaced together. Persisting them is the caller's
    /// next step.
    pub fn apply_root_password_change(&mut self, changes: PreparedRootChanges)
        ensures
            final(self).master.key == changes.new_master_key,
            final(self).master.password == old(self).master.password,
            final(self).config == changes.new_config,
            final(self).meta.decrypted_meta.data == changes.new_decrypted_meta,
            final(self).meta.encrypted_meta.data == changes.new_encrypted_meta,
            final(self).meta.trash_meta.data == changes.new_trash_meta,
            final(self).meta.decrypted_meta.file_path == old(self).meta.decrypted_meta.file_path,
            final(self).meta.encrypted_meta.file_path == old(self).meta.encrypted_meta.file_path,
            final(self).meta.trash_meta.file_path == old(self).meta.trash_meta.file_path,
            final(self).meta.nested_db_meta == old(self).meta.nested_db_meta,
            final(self).directories == old(self).directories,
    {
        self.master.key = changes.new_master_key;
        self.config = changes.new_config;
        self.meta.decrypted_meta.data = changes.new_decrypted_meta;
        self.meta.encrypted_meta.data = changes.new_encrypted_meta;
        self.meta.trash_meta.data = changes.new_trash_meta;
    }

    /// The whole rotation from `old_password` to `new_password`: verify,
    /// prepare, and only if every step succeeded, commit. On any failure the
    /// vault is exactly as before, and so still opens with `old_password`.
    /// Child vaults are not touched.
    pub fn change_master_password_independent(&mut self, old_password: &str, new_password: &str) -> (r: Result<(), VaultError>)
        ensures
            r is Ok <==> rotation_possible(*old(self), old_password@, old(self).master.key@, new_password@),
            r is Err ==> *final(self) == *old(self),
            !accepts(old(self).config, old_password@) ==> r == Err::<(), VaultError>(VaultError::Auth),
            r is Ok ==> exists|c: PreparedRootChanges| {
                &&& #[trigger] is_prepared_rotation(*old(self), old(self).master.key@, new_password@, c)
                &&& final(self).master.key == c.new_master_key
                &&& final(self).config == c.new_config
                &&& final(self).active() == c.new_decrypted_meta
                &&& final(self).encrypted() == c.new_encrypted_meta
                &&& final(self).trash() == c.new_trash_meta
            },
            r is Ok ==> final(self).meta.nested_db_meta == old(self).meta.nested_db_meta,
            r is Ok ==> final(self).directories == old(self).directories,
    {
        if !self.verify_master_password(old_password) {
            return Err(VaultError::Auth);
        }
        let original_master_key = self.master.key;
        let changes = match self.prepare_root_password_change_pure(old_password, new_password, &original_master_key) {
            Ok(c) => c,
            Err(e) => return Err(e),
        };
        let ghost c = changes;
        self.apply_root_password_change(changes);
        assert(is_prepared_rotation(*old(self), old(self).master.key@, new_password@, c));
        Ok(())
    }
}

/// After a rotation, every password's stored value opens under the new
/// master key to exactly what it opened to under the old one.
pub proof fn lemma_rotation_keeps_password_plaintexts(
    o: PasswordEntry,
    n: PasswordEntry,
    old_master: Seq<u8>,
    new_master: Seq<u8>,
)
    requires
        password_rewrapped(o, n, old_master, new_master),
        o.encrypted_item_key@.len() > 0,
    ensures
        password_plaintext(n, new_master) == password_plaintext(o, old_master),
        opened_text(n.encrypted_item_key@, new_master) == opened_text(o.encrypted_item_key@, old_master),
{
}

/// After a rotation, the stored key of a folder, and those of every
/// folder below it, open under the new master key to the item keys they
/// opened to under the old one.
pub proof fn lemma_rotation_keeps_folder_keys(o: FolderEntry, n: FolderEntry, old_master: Seq<u8>, new_master: Seq<u8>)
    requires
        folder_rewrapped(o, n, old_master, new_master),
    ensures
        o.encrypted_item_key@.len() > 0 ==> opened_text(n.encrypted_item_key@, new_master) == opened_text(o.encrypted_item_key@, old_master),
        forall|i: int| 0 <= i < o.sub_folders@.len() ==> folder_rewrapped(#[trigger] o.sub_folders@[i], n.sub_folders@[i], old_master, new_master),
{
}

/// After a rotation, every file's stored key opens under the new master key
/// to the item key it opened to under the old one, so its ciphertext opens
/// as before.
pub proof fn lemma_rotation_keeps_file_keys(o: FileEntry, n: FileEntry, old_master: Seq<u8>, new_master: Seq<u8>)
    requires
        file_rewrapped(o, n, old_master, new_master),
        o.encrypted_item_key@.len() > 0,
    ensures
        opened_text(n.encrypted_item_key@, new_master) == opened_text(o.encrypted_item_key@, old_master),
        opened_text(n.encrypted_item_key@, new_master) is Some,
{
}

} // verus!
