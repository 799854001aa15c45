//! Folders: name validation, creation, and moving a folder to the trash.
use vstd::prelude::*;
use vstd::string::{StrSliceExecFns, StringExecFns};
use crate::enc_keys::{generate_item_key, wrap_item_key};
use crate::files::{joined, Transfer};
use crate::naming::{first_free_name, is_first_free, string_views};
use crate::partition::{folder_names, is_first_position, position_of_folder, same_but_folders};
use crate::passwords::{holds_item_key, lemma_push_fresh_keeps_distinct, never_updated};
use crate::recycle::lemma_remove_keeps_distinct;
use crate::structs::{Database, FolderEntry, VaultError};
use crate::time::now;

verus! {

/// Longest folder name, in bytes.
pub const MAX_FOLDER_NAME_BYTES: usize = 255;

/// Unicode white space, as `char::is_whitespace` has it.
pub open spec fn is_white_space(c: char) -> bool {
    ||| ('\u{9}' <= c <= '\u{d}')
    ||| c == ' ' || c == '\u{85}' || c == '\u{a0}' || c == '\u{1680}'
    ||| ('\u{2000}' <= c <= '\u{200a}')
    ||| c == '\u{2028}' || c == '\u{2029}' || c == '\u{202f}' || c == '\u{205f}' || c == '\u{3000}'
}

/// Unicode control characters, as `char::is_control` has them.
pub open spec fn is_control_char(c: char) -> bool {
    c <= '\u{1f}' || ('\u{7f}' <= c <= '\u{9f}')
}

/// Characters that no folder name may hold.
pub open spec fn is_forbidden_char(c: char) -> bool {
    c == '/' || c == '\\' || c == ':' || c == '*' || c == '?' || c == '"' || c == '<' || c == '>' || c == '|'
}

/// A usable folder name: not blank, at most 255 bytes, not `.` or `..`,
/// no forbidden or control character, no trailing space or dot, no two
/// spaces in a row.
pub open spec fn valid_folder_name(s: Seq<char>) -> bool {
    &&& exists|i: int| 0 <= i < s.len() && !is_white_space(#[trigger] s[i])
    &&& vstd::utf8::encode_utf8(s).len() <= MAX_FOLDER_NAME_BYTES
    &&& s != seq!['.'] && s != seq!['.', '.']
    &&& forall|i: int| 0 <= i < s.len() ==> !is_forbidden_char(#[trigger] s[i]) && !is_control_char(s[i])
    &&& s.last() != ' ' && s.last() != '.'
    &&& forall|i: int| 0 <= i < s.len() - 1 ==> !(#[trigger] s[i] == ' ' && s[i + 1] == ' ')
}

fn white_space(c: char) -> (r: bool)
    ensures
        r == is_white_space(c),
{
    ('\u{9}' <= c && c <= '\u{d}') || c == ' ' || c == '\u{85}' || c == '\u{a0}' || c == '\u{1680}'
        || ('\u{2000}' <= c && c <= '\u{200a}') || c == '\u{2028}' || c == '\u{2029}' || c == '\u{202f}'
        || c == '\u{205f}' || c == '\u{3000}'
}

/// The recorded paths of folder entries.
pub open spec fn folder_paths(s: Seq<FolderEntry>) -> Seq<Seq<char>> {
    s.map_values(|e: FolderEntry| e.folder_path@)
}

fn push_folder_paths(v: &Vec<FolderEntry>, out: &mut Vec<String>)
    ensures
        string_views(final(out)@) == string_views(old(out)@) + folder_paths(v@),
{
    let ghost start = string_views(out@);
    let mut i: usize = 0;
    while i < v.len()
        invariant
            0 <= i <= v@.len(),
            string_views(out@) == start + folder_paths(v@.subrange(0, i as int)),
        decreases v@.len() - i,
    {
        let ghost prev = string_views(out@);
        out.push(v[i].folder_path.clone());
        proof {
            assert(string_views(out@) =~= prev.push(v@[i as int].folder_path@));
            assert(folder_paths(v@.subrange(0, i + 1)) =~= folder_paths(v@.subrange(0, i as int)).push(v@[i as int].folder_path@));
        }
        i = i + 1;
    }
    assert(v@.subrange(0, i as int) =~= v@);
}

impl Database {
    /// Whether `name` can be used as a folder name.
    pub fn is_valid_folder_name(&self, name: &str) -> (r: bool)
        ensures
            r == valid_folder_name(name@),
    {
        let n = name.unicode_len();
        if name.as_bytes().len() > MAX_FOLDER_NAME_BYTES {
            return false;
        }
        let mut blank = true;
        let mut i: usize = 0;
        while i < n
            invariant
                n == name@.len(),
                0 <= i <= n,
                blank == forall|j: int| 0 <= j < i ==> is_white_space(#[trigger] name@[j]),
                forall|j: int| 0 <= j < i ==> !is_forbidden_char(#[trigger] name@[j]) && !is_control_char(name@[j]),
                forall|j: int| 0 <= j < i - 1 ==> !(#[trigger] name@[j] == ' ' && name@[j + 1] == ' '),
            decreases n - i,
        {
            let c = name.get_char(i);
            if c == '/' || c == '\\' || c == ':' || c == '*' || c == '?' || c == '"' || c == '<' || c == '>' || c == '|' {
                return false;
            }
            if c <= '\u{1f}' || ('\u{7f}' <= c && c <= '\u{9f}') {
                return false;
            }
            if i > 0 && c == ' ' && name.get_char(i - 1) == ' ' {
                assert(name@[i - 1] == ' ' && name@[(i - 1) + 1] == ' ');
                return false;
            }
            if !white_space(c) {
                blank = false;
            }
            i = i + 1;
        }
        if blank {
            return false;
        }
        // A trailing dot also rules out the reserved names `.` and `..`.
        let last = name.get_char(n - 1);
        if last == ' ' || last == '.' {
            return false;
        }
        assert(name@ != seq!['.'] && name@ != seq!['.', '.']) by {
            assert(seq!['.'].last() == '.');
            assert(seq!['.', '.'].last() == '.');
        }
        true
    }

    /// Decides the entry for a new folder `name` under the decrypted
    /// folders directory, with a fresh wrapped item key. Fails with
    /// `InvalidName` for a name that cannot be used and `DuplicateName`
    /// when an active or encrypted folder has it.
    pub fn plan_create_folder(&self, name: &str) -> (r: Result<FolderEntry, VaultError>)
        ensures
            !valid_folder_name(name@) ==> r == Err::<FolderEntry, VaultError>(VaultError::InvalidName),
            valid_folder_name(name@) && self.folder_namespace().contains(name@) ==> r == Err::<FolderEntry, VaultError>(VaultError::DuplicateName),
            valid_folder_name(name@) && !self.folder_namespace().contains(name@) ==> r is Ok,
            r matches Ok(e) ==> {
                &&& e.name@ == name@
                &&& e.folder_path@ == joined(self.directories.decrypted_folders_dir@, name@)
                &&& e.sub_files@.len() == 0 && e.sub_folders@.len() == 0
                &&& e.size@ == seq!['0']
                &&& e.is_empty && !e.is_encrypted && !e.is_recycled
                &&& e.updated_at@ == never_updated()
                &&& e.encrypted_item_key@.len() > 0
                &&& holds_item_key(e.encrypted_item_key@, self.master.key@)
            },
    {
        if !self.is_valid_folder_name(name) {
            return Err(VaultError::InvalidName);
        }
        if self.folder_name_in_use(name) {
            return Err(VaultError::DuplicateName);
        }
        let item_key = generate_item_key();
        let encrypted_item_key = match wrap_item_key(item_key.as_slice(), self.master.key.as_slice()) {
            Some(w) => w,
            None => {
                assert(false);
                return Err(VaultError::Crypto);
            },
        };
        let mut folder_path = String::from_str(self.directories.decrypted_folders_dir.as_str());
        proof {
            reveal_strlit("/");
            reveal_strlit("0");
        }
        folder_path.append("/");
        folder_path.append(name);
        assert(folder_path@ =~= joined(self.directories.decrypted_folders_dir@, name@));
        let e = FolderEntry {
            name: String::from_str(name),
            encrypted_item_key,
            folder_path,
            sub_files: Vec::new(),
            sub_folders: Vec::new(),
            size: String::from_str("0"),
            is_empty: true,
            is_encrypted: false,
            is_recycled: false,
            created_at: now(),
            updated_at: String::from_str("0"),
        };
        assert(e.size@ =~= seq!['0']);
        assert(e.updated_at@ =~= never_updated());
        Ok(e)
    }

    /// Whether an active or encrypted folder is named `name`.
    pub fn folder_name_in_use(&self, name: &str) -> (r: bool)
        ensures
            r == self.folder_namespace().contains(name@),
    {
        let ghost la = folder_names(self.active().folders@);
        let ghost lb = folder_names(self.encrypted().folders@);
        if let Some(i) = position_of_folder(&self.meta.decrypted_meta.data.folders, name) {
            assert(self.folder_namespace()[i as int] == name@);
            return true;
        }
        if let Some(j) = position_of_folder(&self.meta.encrypted_meta.data.folders, name) {
            assert(self.folder_namespace()[la.len() + j] == name@);
            return true;
        }
        assert forall|k: int| 0 <= k < self.folder_namespace().len() implies self.folder_namespace()[k] != name@ by {
            if k < la.len() {
                assert(la[k] != name@);
            } else {
                assert(lb[k - la.len()] != name@);
            }
        }
        false
    }

    /// Records a planned folder in the active partition once its directory
    /// exists. Fails with `DuplicateName` when its name has been taken
    /// meanwhile.
    pub fn commit_create_folder(&mut self, entry: FolderEntry) -> (r: Result<(), VaultError>)
        ensures
            r is Err <==> old(self).folder_namespace().contains(entry.name@),
            r is Err ==> r == Err::<(), VaultError>(VaultError::DuplicateName) && *final(self) == *old(self),
            r is Ok ==> {
                &&& same_but_folders(*final(self), *old(self))
                &&& final(self).active().folders@ == old(self).active().folders@.push(entry)
                &&& final(self).encrypted().folders == old(self).encrypted().folders
                &&& final(self).trash().folders == old(self).trash().folders
            },
            old(self).wf() ==> final(self).wf(),
    {
        let ghost before = *self;
        if self.folder_name_in_use(entry.name.as_str()) {
            return Err(VaultError::DuplicateName);
        }
        let ghost n = entry.name@;
        self.meta.decrypted_meta.data.folders.push(entry);
        proof {
            let la = folder_names(before.active().folders@);
            let lb = folder_names(before.encrypted().folders@);
            assert(folder_names(before.active().folders@ + before.encrypted().folders@) =~= la + lb);
            assert(folder_names(self.active().folders@ + self.encrypted().folders@) =~= la.push(n) + lb);
            if before.wf() {
                lemma_push_fresh_keeps_distinct(la, lb, n);
            }
        }
        Ok(())
    }

    /// Decides how the active folder `name` goes to the recycle bin: its
    /// tree moves to `<recycle folders dir>/<name>`, or, when a trashed
    /// folder already lies there, to the first of `<name>1`, `<name>2`, …
    /// that no trashed folder lies at. Fails with `NotFound`
    /// when no active folder has that name, and with `State` when it is not
    /// empty and `force` is not given.
    pub fn plan_delete_folder(&self, name: &str, force: bool) -> (r: Result<Transfer, VaultError>)
        ensures
            !folder_names(self.active().folders@).contains(name@) ==> r == Err::<Transfer, VaultError>(VaultError::NotFound),
            forall|i: int| #![trigger self.active().folders@[i]] is_first_position(folder_names(self.active().folders@), name@, i) ==> {
                let e = self.active().folders@[i];
                &&& (r is Err <==> !e.is_empty && !force)
                &&& (r is Err ==> r == Err::<Transfer, VaultError>(VaultError::State))
                &&& (r matches Ok(t) ==> {
                    &&& t.name@ == name@ && t.new_name@ == name@
                    &&& t.source_path == e.folder_path
                    &&& is_first_free(
                        joined(self.directories.recycle_folders_dir@, e.name@),
                        joined(self.directories.recycle_folders_dir@, e.name@),
                        Seq::empty(),
                        folder_paths(self.trash().folders@),
                        t.target_path@,
                    )
                    &&& !folder_paths(self.trash().folders@).contains(t.target_path@)
                })
            },
    {
        let pos = match position_of_folder(&self.meta.decrypted_meta.data.folders, name) {
            Some(p) => p,
            None => return Err(VaultError::NotFound),
        };
        let e = &self.meta.decrypted_meta.data.folders[pos];
        if !e.is_empty && !force {
            return Err(VaultError::State);
        }
        let mut base = String::from_str(self.directories.recycle_folders_dir.as_str());
        proof {
            reveal_strlit("/");
            reveal_strlit("");
            assert(""@ =~= Seq::<char>::empty());
        }
        base.append("/");
        base.append(e.name.as_str());
        assert(base@ =~= joined(self.directories.recycle_folders_dir@, e.name@));
        let mut taken: Vec<String> = Vec::new();
        push_folder_paths(&self.meta.trash_meta.data.folders, &mut taken);
        assert(string_views(taken@) =~= folder_paths(self.trash().folders@));
        let target = first_free_name(base.as_str(), base.as_str(), "", &taken);
        Ok(Transfer {
            name: String::from_str(name),
            new_name: String::from_str(name),
            new_file_name: String::new(),
            source_path: e.folder_path.clone(),
            target_path: target,
            item_key: Vec::new(),
        })
    }

    /// Moves the active folder `name` to the trash, recorded at
    /// `trash_path`, once its tree is there. Fails with `NotFound` when no
    /// active folder has that name.
    pub fn commit_delete_folder(&mut self, name: &str, trash_path: &str) -> (r: Result<(), VaultError>)
        ensures
            r is Err <==> !folder_names(old(self).active().folders@).contains(name@),
            r is Err ==> r == Err::<(), VaultError>(VaultError::NotFound) && *final(self) == *old(self),
            forall|i: int| #![trigger old(self).active().folders@[i]] is_first_position(folder_names(old(self).active().folders@), name@, i) ==> (r is Ok ==> {
                let e = old(self).active().folders@[i];
                let t = final(self).trash().folders@.last();
                &&& same_but_folders(*final(self), *old(self))
                &&& final(self).active().folders@ == old(self).active().folders@.remove(i)
                &&& final(self).trash().folders@.drop_last() == old(self).trash().folders@
                &&& final(self).trash().folders@.len() == old(self).trash().folders@.len() + 1
                &&& t.name == e.name && t.encrypted_item_key == e.encrypted_item_key
                &&& t.sub_files == e.sub_files && t.sub_folders == e.sub_folders
                &&& t.folder_path@ == trash_path@ && t.is_recycled
                &&& final(self).encrypted().folders == old(self).encrypted().folders
            }),
            old(self).wf() ==> final(self).wf(),
    {
        let ghost before = *self;
        let pos = match position_of_folder(&self.meta.decrypted_meta.data.folders, name) {
            Some(p) => p,
            None => return Err(VaultError::NotFound),
        };
        let mut entry = self.meta.decrypted_meta.data.folders.remove(pos);
        entry.folder_path = String::from_str(trash_path);
        entry.is_recycled = true;
        self.meta.trash_meta.data.folders.push(entry);
        proof {
            assert(self.trash().folders@.drop_last() =~= before.trash().folders@);
            let la = folder_names(before.active().folders@);
            let lb = folder_names(before.encrypted().folders@);
            assert(folder_names(before.active().folders@ + before.encrypted().folders@) =~= la + lb);
            assert(folder_names(self.active().folders@ + self.encrypted().folders@) =~= la.remove(pos as int) + lb);
            if before.wf() {
                lemma_remove_keeps_distinct(la, lb, pos as int);
            }
        }
        Ok(())
    }
}

} // verus!
