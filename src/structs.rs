//! The vault's data model: item entries, the three metadata partitions, the
//! nested-vault registry, the configuration and the live vault value.
use vstd::prelude::*;

verus! {

/// A stored file.
#[derive(Debug)]
pub struct FileEntry {
    pub name: String,
    pub file_name: String,
    pub encrypted_item_key: String,
    pub file_path: String,
    pub size: String,
    pub extension: String,
    pub is_encrypted: bool,
    pub is_recycled: bool,
    pub created_at: String,
    pub updated_at: String,
}

/// A stored folder, with the files and folders it holds.
#[derive(Debug)]
pub struct FolderEntry {
    pub name: String,
    pub encrypted_item_key: String,
    pub folder_path: String,
    pub sub_files: Vec<FileEntry>,
    pub sub_folders: Vec<FolderEntry>,
    pub size: String,
    pub is_empty: bool,
    pub is_encrypted: bool,
    pub is_recycled: bool,
    pub created_at: String,
    pub updated_at: String,
}

/// A stored secret: plaintext while active, base64 ciphertext once encrypted.
#[derive(Debug)]
pub struct PasswordEntry {
    pub name: String,
    pub password: String,
    pub encrypted_item_key: String,
    pub is_encrypted: bool,
    pub is_recycled: bool,
    pub created_at: String,
    pub updated_at: String,
}

/// The contents of one partition.
#[derive(Debug)]
pub struct DatabaseMeta {
    pub folders: Vec<FolderEntry>,
    pub passwords: Vec<PasswordEntry>,
    pub files: Vec<FileEntry>,
}

/// The directories of a vault's on-disk layout.
#[derive(Debug)]
pub struct Directories {
    pub root_directory: String,
    pub decrypted_dir: String,
    pub decrypted_files_dir: String,
    pub decrypted_folders_dir: String,
    pub encrypted_dir: String,
    pub encrypted_files_dir: String,
    pub encrypted_folders_dir: String,
    pub recycle_dir: String,
    pub recycle_files_dir: String,
    pub recycle_folders_dir: String,
    pub nested_db_dir: String,
}

/// One partition and the file it is persisted to.
#[derive(Debug)]
pub struct MetaType {
    pub data: DatabaseMeta,
    pub file_path: String,
}

/// Where a child vault lives. Holds no key material of the child.
#[derive(Debug)]
pub struct NestedDatabaseRecord {
    pub db_name: String,
    pub db_path: String,
}

/// The registry of child vaults and the file it is persisted to.
#[derive(Debug)]
pub struct NestedDatabaseMetaType {
    pub data: Vec<NestedDatabaseRecord>,
    pub file_path: String,
}

/// The three partitions and the child registry.
#[derive(Debug)]
pub struct Meta {
    pub decrypted_meta: MetaType,
    pub encrypted_meta: MetaType,
    pub trash_meta: MetaType,
    pub nested_db_meta: NestedDatabaseMetaType,
}

/// The live master key; never persisted.
#[derive(Debug)]
pub struct Master {
    pub key: [u8; 32],
    pub password: Option<String>,
}

/// An open vault.
#[derive(Debug)]
pub struct Database {
    pub master: Master,
    pub directories: Directories,
    pub meta: Meta,
    pub config: Config,
}

/// What is needed to open or create a vault.
#[derive(Debug)]
pub struct DatabaseArguments {
    pub db_name: String,
    pub owner: String,
    pub description: String,
    pub master_password: String,
    pub is_nested: bool,
    pub root_directory: String,
}

/// Sizes and counts of a vault's contents.
#[derive(Debug, Clone, Copy)]
pub struct DatabaseStats {
    pub total_size_bytes: u64,
    pub encrypted_files_size: u64,
    pub decrypted_files_size: u64,
    pub metadata_size: u64,
    pub file_count: usize,
    pub password_count: usize,
    pub encrypted_count: usize,
    pub decrypted_count: usize,
}

/// A vault's persisted configuration.
#[derive(Debug)]
pub struct Config {
    pub db_version: String,
    pub kdf_salt_b64: String,
    pub verifier_b64: String,
    pub max_file_size_mb: u64,
    pub file_path: Option<String>,
    pub is_nested: bool,
    pub db_info: DBInfo,
}

/// Descriptive information about a vault.
#[derive(Debug)]
pub struct DBInfo {
    pub name: String,
    pub created_at: String,
    pub last_login: String,
    pub owner: String,
    pub description: String,
    pub stats: DatabaseStats,
}

/// The state that a master-password rotation will commit.
#[derive(Debug)]
pub struct PreparedRootChanges {
    pub new_master_key: [u8; 32],
    pub new_decrypted_meta: DatabaseMeta,
    pub new_encrypted_meta: DatabaseMeta,
    pub new_trash_meta: DatabaseMeta,
    pub new_config: Config,
}

/// Why an operation on the vault failed.
#[derive(Debug, Clone, Copy, PartialEq, Eq, Structural)]
pub enum VaultError {
    /// Wrong master or child password.
    Auth,
    /// A ciphertext or wrapped key did not open.
    Crypto,
    /// No item of that name where the operation looks.
    NotFound,
    /// The name is already taken.
    DuplicateName,
    /// The item exceeds the configured size limit.
    Capacity,
    /// A filesystem step failed.
    Io,
    /// The operation does not apply to the item's current state.
    State,
    /// The name cannot be used for a folder.
    InvalidName,
}

} // verus!
