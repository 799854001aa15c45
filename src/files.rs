//! The file lifecycle. Every transition is split around the filesystem
//! work: a `plan_*` function reads the vault and decides (paths, names, the
//! item key), the caller moves the bytes, and a `commit_*` function applies
//! the metadata change only once the bytes are in place.
use vstd::prelude::*;
use vstd::string::{StrSliceExecFns, StringExecFns};
use crate::enc_keys::{generate_item_key, opened_text, unwrap_item_key, wrap_item_key, KEY_LEN};
use crate::naming::{first_free_name, is_first_free, string_views};
use crate::partition::{file_names, is_first_position, position_of_file, same_but_files, stored_file_names};
use crate::passwords::{holds_item_key, lemma_move_keeps_distinct, lemma_push_fresh_keeps_distinct, lemma_distinct_swap, never_updated};
use crate::primitives::{lowercase_of, to_lowercase};
use crate::structs::{Database, FileEntry, VaultError};
use crate::time::now;

verus! {

/// Bytes in a MiB.
pub const BYTES_PER_MB: u64 = 1048576;

/// From this many MiB on, a limit exceeds every size a `u64` can hold.
pub const UNBOUNDED_LIMIT_MB: u64 = 17592186044416;

/// What a transition decided: which entry, the names it will carry, where
/// its bytes come from and go to, and (for encryption) its item key.
#[derive(Debug)]
pub struct Transfer {
    pub name: String,
    pub new_name: String,
    pub new_file_name: String,
    pub source_path: String,
    pub target_path: String,
    pub item_key: Vec<u8>,
}

/// `dir`, a slash, then `leaf`.
pub open spec fn joined(dir: Seq<char>, leaf: Seq<char>) -> Seq<char> {
    dir + seq!['/'] + leaf
}

/// Position of the last `.` in `s`, or -1.
pub open spec fn last_dot(s: Seq<char>) -> int
    decreases s.len(),
{
    if s.len() == 0 {
        -1
    } else if s.last() == '.' {
        s.len() - 1
    } else {
        last_dot(s.drop_last())
    }
}

/// The file name without its extension.
pub open spec fn stem_of(s: Seq<char>) -> Seq<char> {
    if last_dot(s) > 0 {
        s.subrange(0, last_dot(s))
    } else {
        s
    }
}

/// The extension with its dot, or nothing when there is no extension.
pub open spec fn dotted_extension_of(s: Seq<char>) -> Seq<char> {
    if last_dot(s) > 0 && last_dot(s) < s.len() - 1 {
        s.subrange(last_dot(s), s.len() as int)
    } else {
        Seq::empty()
    }
}

/// A file of `size_bytes` exceeds a limit of `max_mb` MiB.
pub open spec fn exceeds_limit(size_bytes: u64, max_mb: u64) -> bool {
    size_bytes as int > max_mb as int * BYTES_PER_MB as int
}

/// `after` is `before` relocated to `path`, with the given flags; its
/// identity (names, key, size, extension, creation time) is kept.
pub open spec fn file_relocated(before: FileEntry, after: FileEntry, path: Seq<char>, encrypted: bool, recycled: bool) -> bool {
    &&& after.name == before.name
    &&& after.file_name == before.file_name
    &&& after.encrypted_item_key == before.encrypted_item_key
    &&& after.size == before.size
    &&& after.extension == before.extension
    &&& after.created_at == before.created_at
    &&& after.file_path@ == path
    &&& after.is_encrypted == encrypted
    &&& after.is_recycled == recycled
}

/// `after` is `from` with the entry at `i` taken out, and `to` gains
/// `moved` at its end; nothing else about files changes.
pub open spec fn file_moved(from_before: Seq<FileEntry>, from_after: Seq<FileEntry>, to_before: Seq<FileEntry>, to_after: Seq<FileEntry>, i: int) -> bool {
    &&& 0 <= i < from_before.len()
    &&& from_after == from_before.remove(i)
    &&& to_after.drop_last() == to_before
    &&& to_after.len() == to_before.len() + 1
}

impl Database {
    /// The first of `file_name`, `stem1.ext`, `stem2.ext`, … that no
    /// active or encrypted file is stored under.
    pub fn get_unique_file_name(&self, file_name: &str) -> (r: String)
        ensures
            is_first_free(
                file_name@,
                stem_of(file_name@),
                dotted_extension_of(file_name@),
                self.stored_file_namespace(),
                r@,
            ),
    {
        let (stem, suffix) = stem_and_extension(file_name);
        let mut taken: Vec<String> = Vec::new();
        push_stored_file_names(&self.meta.decrypted_meta.data.files, &mut taken);
        push_stored_file_names(&self.meta.encrypted_meta.data.files, &mut taken);
        assert(string_views(taken@) =~= self.stored_file_namespace());
        first_free_name(file_name, stem, suffix, &taken)
    }

    /// Decides how a file of `size_bytes` bytes, whose base name is
    /// `source_file_name`, is added under `name` in the storage folder
    /// `subfolder`: the entry that will be recorded, with a fresh wrapped
    /// item key and a stored name that no file uses yet. Fails with
    /// `Capacity` when the file exceeds the size limit and with
    /// `DuplicateName` when an active or encrypted file has that name;
    /// nothing is to be written then.
    pub fn plan_add_file(
        &self,
        name: &str,
        source_file_name: &str,
        extension: &str,
        subfolder: &str,
        size: &str,
        size_bytes: u64,
    ) -> (r: Result<FileEntry, VaultError>)
        ensures
            exceeds_limit(size_bytes, self.config.max_file_size_mb) ==> r == Err::<FileEntry, VaultError>(VaultError::Capacity),
            !exceeds_limit(size_bytes, self.config.max_file_size_mb) && self.file_namespace().contains(name@)
                ==> r == Err::<FileEntry, VaultError>(VaultError::DuplicateName),
            !exceeds_limit(size_bytes, self.config.max_file_size_mb) && !self.file_namespace().contains(name@) ==> r is Ok,
            r matches Ok(e) ==> {
                &&& e.name@ == name@
                &&& is_first_free(
                    source_file_name@,
                    stem_of(source_file_name@),
                    dotted_extension_of(source_file_name@),
                    self.stored_file_namespace(),
                    e.file_name@,
                )
                &&& e.file_path@ == joined(joined(self.directories.decrypted_files_dir@, subfolder@), e.file_name@)
                &&& e.extension@ == lowercase_of(extension@)
                &&& e.size@ == size@
                &&& !e.is_encrypted && !e.is_recycled
                &&& e.updated_at@ == never_updated()
                &&& e.encrypted_item_key@.len() > 0
                &&& holds_item_key(e.encrypted_item_key@, self.master.key@)
            },
    {
        let file_name = self.get_unique_file_name(source_file_name);
        let over = if self.config.max_file_size_mb >= UNBOUNDED_LIMIT_MB {
            false
        } else {
            size_bytes > self.config.max_file_size_mb * BYTES_PER_MB
        };
        if over {
            return Err(VaultError::Capacity);
        }
        if self.file_name_in_use(name) {
            return Err(VaultError::DuplicateName);
        }
        let item_key = generate_item_key();
        let encrypted_item_key = match wrap_item_key(item_key.as_slice(), self.master.key.as_slice()) {
            Some(w) => w,
            None => {
                assert(false);
                return Err(VaultError::Crypto);
            },
        };
        let mut file_path = String::from_str(self.directories.decrypted_files_dir.as_str());
        proof {
            reveal_strlit("/");
            reveal_strlit("0");
        }
        file_path.append("/");
        file_path.append(subfolder);
        file_path.append("/");
        file_path.append(file_name.as_str());
        let e = FileEntry {
            name: String::from_str(name),
            file_name,
            encrypted_item_key,
            file_path,
            size: String::from_str(size),
            extension: to_lowercase(extension),
            is_encrypted: false,
            is_recycled: false,
            created_at: now(),
            updated_at: String::from_str("0"),
        };
        assert(e.file_path@ =~= joined(joined(self.directories.decrypted_files_dir@, subfolder@), e.file_name@));
        assert(e.updated_at@ =~= never_updated());
        Ok(e)
    }

    /// Whether an active or encrypted file has the logical name `name`.
    pub fn file_name_in_use(&self, name: &str) -> (r: bool)
        ensures
            r == self.file_namespace().contains(name@),
    {
        let ghost la = file_names(self.active().files@);
        let ghost lb = file_names(self.encrypted().files@);
        if let Some(i) = position_of_file(&self.meta.decrypted_meta.data.files, name) {
            assert(self.file_namespace()[i as int] == name@);
            return true;
        }
        if let Some(j) = position_of_file(&self.meta.encrypted_meta.data.files, name) {
            assert(self.file_namespace()[la.len() + j] == name@);
            return true;
        }
        assert forall|k: int| 0 <= k < self.file_namespace().len() implies self.file_namespace()[k] != name@ by {
            if k < la.len() {
                assert(la[k] != name@);
            } else {
                assert(lb[k - la.len()] != name@);
            }
        }
        false
    }

    /// Records a planned file in the active partition, once its bytes are
    /// in place. Fails with `DuplicateName` when its name has been taken
    /// meanwhile.
    pub fn commit_add_file(&mut self, entry: FileEntry) -> (r: Result<(), VaultError>)
        ensures
            r is Err <==> old(self).file_namespace().contains(entry.name@),
            r is Err ==> r == Err::<(), VaultError>(VaultError::DuplicateName) && *final(self) == *old(self),
            r is Ok ==> {
                &&& same_but_files(*final(self), *old(self))
                &&& final(self).active().files@ == old(self).active().files@.push(entry)
                &&& final(self).encrypted().files == old(self).encrypted().files
                &&& final(self).trash().files == old(self).trash().files
            },
            old(self).wf() ==> final(self).wf(),
    {
        let ghost before = *self;
        if self.file_name_in_use(entry.name.as_str()) {
            return Err(VaultError::DuplicateName);
        }
        let ghost n = entry.name@;
        let ghost e = entry;
        self.meta.decrypted_meta.data.files.push(entry);
        proof {
            let la = file_names(before.active().files@);
            let lb = file_names(before.encrypted().files@);
            assert(file_names(before.active().files@ + before.encrypted().files@) =~= la + lb);
            assert(file_names(self.active().files@ + self.encrypted().files@) =~= la.push(n) + lb);
            if before.wf() {
                lemma_push_fresh_keeps_distinct(la, lb, n);
            }
        }
        Ok(())
    }

    /// Decides how the active file `name` is encrypted: its bytes go from
    /// its current path to `<encrypted files dir>/<name>.enc`, sealed under
    /// its item key. Fails with `NotFound` when no active file has that
    /// name and with `Crypto` when its item key does not open.
    pub fn plan_encrypt_file(&self, name: &str) -> (r: Result<Transfer, VaultError>)
        ensures
            !file_names(self.active().files@).contains(name@) ==> r == Err::<Transfer, VaultError>(VaultError::NotFound),
            forall|i: int| #![trigger self.active().files@[i]] is_first_position(file_names(self.active().files@), name@, i) ==> {
                let e = self.active().files@[i];
                &&& (r is Ok <==> holds_item_key(e.encrypted_item_key@, self.master.key@))
                &&& (r is Err ==> r == Err::<Transfer, VaultError>(VaultError::Crypto))
                &&& (r matches Ok(t) ==> {
                    &&& t.name@ == name@ && t.new_name@ == name@ && t.new_file_name == e.file_name
                    &&& t.source_path == e.file_path
                    &&& t.target_path@ == joined(self.directories.encrypted_files_dir@, name@ + seq!['.', 'e', 'n', 'c'])
                    &&& opened_text(e.encrypted_item_key@, self.master.key@) == Some(t.item_key@)
                    &&& t.item_key@.len() == KEY_LEN
                })
            },
    {
        let pos = match position_of_file(&self.meta.decrypted_meta.data.files, name) {
            Some(p) => p,
            None => return Err(VaultError::NotFound),
        };
        let e = &self.meta.decrypted_meta.data.files[pos];
        let key = match unwrap_item_key(e.encrypted_item_key.as_str(), self.master.key.as_slice()) {
            Some(k) => k,
            None => return Err(VaultError::Crypto),
        };
        if key.len() != KEY_LEN {
            return Err(VaultError::Crypto);
        }
        let mut target = String::from_str(self.directories.encrypted_files_dir.as_str());
        proof {
            reveal_strlit("/");
            reveal_strlit(".enc");
        }
        target.append("/");
        target.append(name);
        target.append(".enc");
        assert(target@ =~= joined(self.directories.encrypted_files_dir@, name@ + seq!['.', 'e', 'n', 'c']));
        Ok(Transfer {
            name: String::from_str(name),
            new_name: String::from_str(name),
            new_file_name: e.file_name.clone(),
            source_path: e.file_path.clone(),
            target_path: target,
            item_key: key,
        })
    }

    /// Moves the active file `name` to the encrypted partition, recorded at
    /// `encrypted_path`, once its ciphertext is fully written. Fails with
    /// `NotFound` when no active file has that name.
    pub fn commit_encrypt_file(&mut self, name: &str, encrypted_path: &str) -> (r: Result<(), VaultError>)
        ensures
            r is Err <==> !file_names(old(self).active().files@).contains(name@),
            r is Err ==> r == Err::<(), VaultError>(VaultError::NotFound) && *final(self) == *old(self),
            forall|i: int| #![trigger old(self).active().files@[i]] is_first_position(file_names(old(self).active().files@), name@, i) ==> (r is Ok ==> {
                &&& same_but_files(*final(self), *old(self))
                &&& file_moved(old(self).active().files@, final(self).active().files@, old(self).encrypted().files@, final(self).encrypted().files@, i)
                &&& file_relocated(old(self).active().files@[i], final(self).encrypted().files@.last(), encrypted_path@, true, false)
                &&& final(self).trash().files == old(self).trash().files
            }),
            old(self).wf() ==> final(self).wf(),
    {
        let ghost before = *self;
        let pos = match position_of_file(&self.meta.decrypted_meta.data.files, name) {
            Some(p) => p,
            None => return Err(VaultError::NotFound),
        };
        let mut entry = self.meta.decrypted_meta.data.files.remove(pos);
        entry.file_path = String::from_str(encrypted_path);
        entry.is_encrypted = true;
        entry.is_recycled = false;
        entry.updated_at = now();
        self.meta.encrypted_meta.data.files.push(entry);
        proof {
            assert(self.encrypted().files@.drop_last() =~= before.encrypted().files@);
            let la = file_names(before.active().files@);
            let lb = file_names(before.encrypted().files@);
            assert(file_names(before.active().files@ + before.encrypted().files@) =~= la + lb);
            assert(file_names(self.active().files@ + self.encrypted().files@) =~= la.remove(pos as int) + lb.push(la[pos as int]));
            if before.wf() {
                lemma_move_keeps_distinct(la, lb, pos as int);
            }
        }
        Ok(())
    }

    /// Decides how the encrypted file `name` is decrypted: its ciphertext
    /// at its recorded path is opened under its item key into
    /// `<decrypted files dir>/<subfolder>/<stored name>`. Fails with
    /// `NotFound` when no encrypted file has that name and with `Crypto`
    /// when its item key does not open.
    pub fn plan_decrypt_file(&self, name: &str, subfolder: &str) -> (r: Result<Transfer, VaultError>)
        ensures
            !file_names(self.encrypted().files@).contains(name@) ==> r == Err::<Transfer, VaultError>(VaultError::NotFound),
            forall|i: int| #![trigger self.encrypted().files@[i]] is_first_position(file_names(self.encrypted().files@), name@, i) ==> {
                let e = self.encrypted().files@[i];
                &&& (r is Ok <==> holds_item_key(e.encrypted_item_key@, self.master.key@))
                &&& (r is Err ==> r == Err::<Transfer, VaultError>(VaultError::Crypto))
                &&& (r matches Ok(t) ==> {
                    &&& t.name@ == name@ && t.new_name@ == name@ && t.new_file_name == e.file_name
                    &&& t.source_path == e.file_path
                    &&& t.target_path@ == joined(joined(self.directories.decrypted_files_dir@, subfolder@), e.file_name@)
                    &&& opened_text(e.encrypted_item_key@, self.master.key@) == Some(t.item_key@)
                    &&& t.item_key@.len() == KEY_LEN
                })
            },
    {
        let pos = match position_of_file(&self.meta.encrypted_meta.data.files, name) {
            Some(p) => p,
            None => return Err(VaultError::NotFound),
        };
        let e = &self.meta.encrypted_meta.data.files[pos];
        let key = match unwrap_item_key(e.encrypted_item_key.as_str(), self.master.key.as_slice()) {
            Some(k) => k,
            None => return Err(VaultError::Crypto),
        };
        if key.len() != KEY_LEN {
            return Err(VaultError::Crypto);
        }
        let mut target = String::from_str(self.directories.decrypted_files_dir.as_str());
        proof {
            reveal_strlit("/");
        }
        target.append("/");
        target.append(subfolder);
        target.append("/");
        target.append(e.file_name.as_str());
        assert(target@ =~= joined(joined(self.directories.decrypted_files_dir@, subfolder@), e.file_name@));
        Ok(Transfer {
            name: String::from_str(name),
            new_name: String::from_str(name),
            new_file_name: e.file_name.clone(),
            source_path: e.file_path.clone(),
            target_path: target,
            item_key: key,
        })
    }

    /// Moves the encrypted file `name` back to the active partition,
    /// recorded at `decrypted_path`, once its plaintext is fully written.
    /// Fails with `NotFound` when no encrypted file has that name.
    pub fn commit_decrypt_file(&mut self, name: &str, decrypted_path: &str) -> (r: Result<(), VaultError>)
        ensures
            r is Err <==> !file_names(old(self).encrypted().files@).contains(name@),
            r is Err ==> r == Err::<(), VaultError>(VaultError::NotFound) && *final(self) == *old(self),
            forall|i: int| #![trigger old(self).encrypted().files@[i]] is_first_position(file_names(old(self).encrypted().files@), name@, i) ==> (r is Ok ==> {
                &&& same_but_files(*final(self), *old(self))
                &&& file_moved(old(self).encrypted().files@, final(self).encrypted().files@, old(self).active().files@, final(self).active().files@, i)
                &&& file_relocated(old(self).encrypted().files@[i], final(self).active().files@.last(), decrypted_path@, false, false)
                &&& final(self).trash().files == old(self).trash().files
            }),
            old(self).wf() ==> final(self).wf(),
    {
        let ghost before = *self;
        let pos = match position_of_file(&self.meta.encrypted_meta.data.files, name) {
            Some(p) => p,
            None => return Err(VaultError::NotFound),
        };
        let mut entry = self.meta.encrypted_meta.data.files.remove(pos);
        entry.file_path = String::from_str(decrypted_path);
        entry.is_encrypted = false;
        entry.is_recycled = false;
        entry.updated_at = now();
        self.meta.decrypted_meta.data.files.push(entry);
        proof {
            assert(self.active().files@.drop_last() =~= before.active().files@);
            let la = file_names(before.active().files@);
            let lb = file_names(before.encrypted().files@);
            assert(file_names(before.active().files@ + before.encrypted().files@) =~= la + lb);
            assert(file_names(self.active().files@ + self.encrypted().files@) =~= la.push(lb[pos as int]) + lb.remove(pos as int));
            if before.wf() {
                lemma_distinct_swap(la, lb);
                assert(file_names(before.encrypted().files@ + before.active().files@) =~= lb + la);
                lemma_move_keeps_distinct(lb, la, pos as int);
            }
        }
        Ok(())
    }

    /// The extension recorded for the first encrypted file named `name`.
    pub fn encrypted_file_extension(&self, name: &str) -> (r: Option<String>)
        ensures
            r is None <==> !file_names(self.encrypted().files@).contains(name@),
            forall|i: int| #![trigger self.encrypted().files@[i]] is_first_position(file_names(self.encrypted().files@), name@, i)
                ==> (r matches Some(x) ==> x == self.encrypted().files@[i].extension),
    {
        match position_of_file(&self.meta.encrypted_meta.data.files, name) {
            Some(i) => Some(self.meta.encrypted_meta.data.files[i].extension.clone()),
            None => None,
        }
    }

    /// The extension recorded for the first trashed file named `name`.
    pub fn trashed_file_extension(&self, name: &str) -> (r: Option<String>)
        ensures
            r is None <==> !file_names(self.trash().files@).contains(name@),
            forall|i: int| #![trigger self.trash().files@[i]] is_first_position(file_names(self.trash().files@), name@, i)
                ==> (r matches Some(x) ==> x == self.trash().files@[i].extension),
    {
        match position_of_file(&self.meta.trash_meta.data.files, name) {
            Some(i) => Some(self.meta.trash_meta.data.files[i].extension.clone()),
            None => None,
        }
    }

    /// Decides how the active file `name` is copied out of the vault into
    /// `dst_dir`, under its stored name. Fails with `NotFound` when no
    /// active file has that name (an encrypted one must be decrypted first).
    pub fn plan_paste_file(&self, name: &str, dst_dir: &str) -> (r: Result<Transfer, VaultError>)
        ensures
            r is Err <==> !file_names(self.active().files@).contains(name@),
            r is Err ==> r == Err::<Transfer, VaultError>(VaultError::NotFound),
            forall|i: int| #![trigger self.active().files@[i]] is_first_position(file_names(self.active().files@), name@, i) ==> (r matches Ok(t) ==> {
                let e = self.active().files@[i];
                &&& t.name@ == name@ && t.new_name@ == name@ && t.new_file_name == e.file_name
                &&& t.source_path == e.file_path
                &&& t.target_path@ == joined(dst_dir@, e.file_name@)
            }),
    {
        let pos = match position_of_file(&self.meta.decrypted_meta.data.files, name) {
            Some(p) => p,
            None => return Err(VaultError::NotFound),
        };
        let e = &self.meta.decrypted_meta.data.files[pos];
        let mut target = String::from_str(dst_dir);
        proof {
            reveal_strlit("/");
        }
        target.append("/");
        target.append(e.file_name.as_str());
        assert(target@ =~= joined(dst_dir@, e.file_name@));
        Ok(Transfer {
            name: String::from_str(name),
            new_name: String::from_str(name),
            new_file_name: e.file_name.clone(),
            source_path: e.file_path.clone(),
            target_path: target,
            item_key: Vec::new(),
        })
    }
}

/// The stem and the dotted extension of a file name.
pub fn stem_and_extension<'a>(file_name: &'a str) -> (r: (&'a str, &'a str))
    ensures
        r.0@ == stem_of(file_name@),
        r.1@ == dotted_extension_of(file_name@),
{
        let n = file_name.unicode_len();
        let mut i: usize = 0;
        let mut last: Option<usize> = None;
        while i < n
            invariant
                n == file_name@.len(),
                0 <= i <= n,
                match last {
                    Some(d) => d < i && last_dot(file_name@.subrange(0, i as int)) == d,
                    None => last_dot(file_name@.subrange(0, i as int)) == -1,
                },
            decreases n - i,
        {
            let ghost next = file_name@.subrange(0, i + 1);
            assert(next.drop_last() =~= file_name@.subrange(0, i as int));
            assert(next.last() == file_name@[i as int]);
            if file_name.get_char(i) == '.' {
                last = Some(i);
            }
            i = i + 1;
        }
        assert(file_name@.subrange(0, n as int) =~= file_name@);
        let (stem, suffix) = match last {
            Some(d) => {
                if d > 0 {
                    let stem = file_name.substring_char(0, d);
                    if d < n - 1 {
                        (stem, file_name.substring_char(d, n))
                    } else {
                        proof {
                            reveal_strlit("");
                            assert(""@ =~= Seq::<char>::empty());
                        }
                        (stem, "")
                    }
                } else {
                    proof {
                        reveal_strlit("");
                        assert(""@ =~= Seq::<char>::empty());
                    }
                    (file_name, "")
                }
            },
            None => {
                proof {
                    reveal_strlit("");
                    assert(""@ =~= Seq::<char>::empty());
                }
                (file_name, "")
            },
        };
        (stem, suffix)
}

/// The recorded paths of file entries.
pub open spec fn file_paths(s: Seq<FileEntry>) -> Seq<Seq<char>> {
    s.map_values(|e: FileEntry| e.file_path@)
}

/// Pushes the recorded paths of `v` onto `out`.
pub(crate) fn push_file_paths(v: &Vec<FileEntry>, out: &mut Vec<String>)
    ensures
        string_views(final(out)@) == string_views(old(out)@) + file_paths(v@),
{
    let ghost start = string_views(out@);
    let mut i: usize = 0;
    while i < v.len()
        invariant
            0 <= i <= v@.len(),
            string_views(out@) == start + file_paths(v@.subrange(0, i as int)),
        decreases v@.len() - i,
    {
        let ghost prev = string_views(out@);
        out.push(v[i].file_path.clone());
        proof {
            assert(string_views(out@) =~= prev.push(v@[i as int].file_path@));
            assert(file_paths(v@.subrange(0, i + 1)) =~= file_paths(v@.subrange(0, i as int)).push(v@[i as int].file_path@));
        }
        i = i + 1;
    }
    assert(v@.subrange(0, i as int) =~= v@);
}

fn push_stored_file_names(v: &Vec<FileEntry>, out: &mut Vec<String>)
    ensures
        string_views(final(out)@) == string_views(old(out)@) + stored_file_names(v@),
{
    let ghost start = string_views(out@);
    let mut i: usize = 0;
    while i < v.len()
        invariant
            0 <= i <= v@.len(),
            string_views(out@) == start + stored_file_names(v@.subrange(0, i as int)),
        decreases v@.len() - i,
    {
        let ghost prev = string_views(out@);
        out.push(v[i].file_name.clone());
        proof {
            assert(string_views(out@) =~= prev.push(v@[i as int].file_name@));
            assert(stored_file_names(v@.subrange(0, i + 1)) =~= stored_file_names(v@.subrange(0, i as int)).push(v@[i as int].file_name@));
        }
        i = i + 1;
    }
    assert(v@.subrange(0, i as int) =~= v@);
}

} // verus!
