//! Counts and sizes of a vault's contents.
use vstd::prelude::*;
use crate::structs::{Database, DatabaseStats};

verus! {

/// `a + b`, or the largest `u64` when the sum does not fit.
pub open spec fn saturated_sum(a: int, b: int) -> int {
    if a + b > u64::MAX { u64::MAX as int } else { a + b }
}

impl Database {
    /// The statistics of this vault, given the sizes on disk of its
    /// encrypted and decrypted files and of its metadata: files and
    /// passwords counted over the active and encrypted partitions.
    pub fn get_database_stats(&self, encrypted_files_size: u64, decrypted_files_size: u64, metadata_size: u64) -> (r: DatabaseStats)
        requires
            self.active().files@.len() + self.encrypted().files@.len() <= usize::MAX,
            self.active().passwords@.len() + self.encrypted().passwords@.len() <= usize::MAX,
            self.encrypted().files@.len() + self.encrypted().passwords@.len() <= usize::MAX,
            self.active().files@.len() + self.active().passwords@.len() <= usize::MAX,
        ensures
            r.file_count == self.active().files@.len() + self.encrypted().files@.len(),
            r.password_count == self.active().passwords@.len() + self.encrypted().passwords@.len(),
            r.encrypted_count == self.encrypted().files@.len() + self.encrypted().passwords@.len(),
            r.decrypted_count == self.active().files@.len() + self.active().passwords@.len(),
            r.encrypted_files_size == encrypted_files_size,
            r.decrypted_files_size == decrypted_files_size,
            r.metadata_size == metadata_size,
            r.total_size_bytes == saturated_sum(saturated_sum(encrypted_files_size as int, decrypted_files_size as int), metadata_size as int),
    {
        let a = &self.meta.decrypted_meta.data;
        let e = &self.meta.encrypted_meta.data;
        DatabaseStats {
            total_size_bytes: encrypted_files_size.saturating_add(decrypted_files_size).saturating_add(metadata_size),
            encrypted_files_size,
            decrypted_files_size,
            metadata_size,
            file_count: a.files.len() + e.files.len(),
            password_count: a.passwords.len() + e.passwords.len(),
            encrypted_count: e.files.len() + e.passwords.len(),
            decrypted_count: a.files.len() + a.passwords.len(),
        }
    }
}

} // verus!
