//! An encrypted local vault: files, secrets and folders kept under one
//! master password, with per-item keys, a recycle bin, an all-or-nothing
//! master-password rotation and independently keyed nested vaults.
pub mod primitives;
pub mod enc_keys;
pub mod structs;
pub mod time;
pub mod config;
pub mod data_encryption;
pub mod naming;
pub mod partition;
pub mod passwords;
pub mod recycle;
pub mod auth;
pub mod files;
pub mod folders;
pub mod search;
pub mod instance;
pub mod nested_db;
pub mod stats;
pub mod shell;
