//! Lookups in the metadata partitions, and the views that contracts use to
//! speak about them.
use vstd::prelude::*;
use vstd::string::StringExecFns;
use crate::structs::{Database, DatabaseMeta, FileEntry, FolderEntry, PasswordEntry};

verus! {

/// The names of password entries.
pub open spec fn password_names(s: Seq<PasswordEntry>) -> Seq<Seq<char>> {
    s.map_values(|e: PasswordEntry| e.name@)
}

/// The logical names of file entries.
pub open spec fn file_names(s: Seq<FileEntry>) -> Seq<Seq<char>> {
    s.map_values(|e: FileEntry| e.name@)
}

/// The stored file names of file entries.
pub open spec fn stored_file_names(s: Seq<FileEntry>) -> Seq<Seq<char>> {
    s.map_values(|e: FileEntry| e.file_name@)
}

/// The names of folder entries.
pub open spec fn folder_names(s: Seq<FolderEntry>) -> Seq<Seq<char>> {
    s.map_values(|e: FolderEntry| e.name@)
}

/// `i` is the first position of `name` in `names`.
pub open spec fn is_first_position(names: Seq<Seq<char>>, name: Seq<char>, i: int) -> bool {
    &&& 0 <= i < names.len()
    &&& names[i] == name
    &&& forall|j: int| 0 <= j < i ==> names[j] != name
}

/// What a lookup of `name` in `names` returns: the first position, or
/// nothing when the name is absent.
pub open spec fn lookup_result(names: Seq<Seq<char>>, name: Seq<char>, r: Option<usize>) -> bool {
    match r {
        Some(i) => is_first_position(names, name, i as int),
        None => !names.contains(name),
    }
}

/// Names are pairwise distinct.
pub open spec fn distinct_names(names: Seq<Seq<char>>) -> bool {
    names.no_duplicates()
}

impl Database {
    /// The active partition.
    pub open spec fn active(self) -> DatabaseMeta {
        self.meta.decrypted_meta.data
    }

    /// The encrypted partition.
    pub open spec fn encrypted(self) -> DatabaseMeta {
        self.meta.encrypted_meta.data
    }

    /// The trash partition.
    pub open spec fn trash(self) -> DatabaseMeta {
        self.meta.trash_meta.data
    }

    /// Partition exclusivity: within each item type, no name occurs twice
    /// across the active and encrypted partitions.
    pub open spec fn wf(self) -> bool {
        &&& distinct_names(password_names(self.active().passwords@ + self.encrypted().passwords@))
        &&& distinct_names(file_names(self.active().files@ + self.encrypted().files@))
        &&& distinct_names(folder_names(self.active().folders@ + self.encrypted().folders@))
    }

    /// The password names in use: active, then encrypted.
    pub open spec fn password_namespace(self) -> Seq<Seq<char>> {
        password_names(self.active().passwords@) + password_names(self.encrypted().passwords@)
    }

    /// The logical file names in use: active, then encrypted.
    pub open spec fn file_namespace(self) -> Seq<Seq<char>> {
        file_names(self.active().files@) + file_names(self.encrypted().files@)
    }

    /// The stored file names in use: active, then encrypted.
    pub open spec fn stored_file_namespace(self) -> Seq<Seq<char>> {
        stored_file_names(self.active().files@) + stored_file_names(self.encrypted().files@)
    }

    /// The folder names in use: active, then encrypted.
    pub open spec fn folder_namespace(self) -> Seq<Seq<char>> {
        folder_names(self.active().folders@) + folder_names(self.encrypted().folders@)
    }
}

/// `a` and `b` agree on all but the password lists of the three partitions.
pub open spec fn same_but_passwords(a: Database, b: Database) -> bool {
    &&& a.master == b.master
    &&& a.directories == b.directories
    &&& a.config == b.config
    &&& a.meta.nested_db_meta == b.meta.nested_db_meta
    &&& a.meta.decrypted_meta.file_path == b.meta.decrypted_meta.file_path
    &&& a.meta.encrypted_meta.file_path == b.meta.encrypted_meta.file_path
    &&& a.meta.trash_meta.file_path == b.meta.trash_meta.file_path
    &&& a.active().files == b.active().files && a.active().folders == b.active().folders
    &&& a.encrypted().files == b.encrypted().files && a.encrypted().folders == b.encrypted().folders
    &&& a.trash().files == b.trash().files && a.trash().folders == b.trash().folders
}

/// `a` and `b` agree on all but the file lists of the three partitions.
pub open spec fn same_but_files(a: Database, b: Database) -> bool {
    &&& a.master == b.master
    &&& a.directories == b.directories
    &&& a.config == b.config
    &&& a.meta.nested_db_meta == b.meta.nested_db_meta
    &&& a.meta.decrypted_meta.file_path == b.meta.decrypted_meta.file_path
    &&& a.meta.encrypted_meta.file_path == b.meta.encrypted_meta.file_path
    &&& a.meta.trash_meta.file_path == b.meta.trash_meta.file_path
    &&& a.active().passwords == b.active().passwords && a.active().folders == b.active().folders
    &&& a.encrypted().passwords == b.encrypted().passwords && a.encrypted().folders == b.encrypted().folders
    &&& a.trash().passwords == b.trash().passwords && a.trash().folders == b.trash().folders
}

/// `a` and `b` agree on all but the folder lists of the three partitions.
pub open spec fn same_but_folders(a: Database, b: Database) -> bool {
    &&& a.master == b.master
    &&& a.directories == b.directories
    &&& a.config == b.config
    &&& a.meta.nested_db_meta == b.meta.nested_db_meta
    &&& a.meta.decrypted_meta.file_path == b.meta.decrypted_meta.file_path
    &&& a.meta.encrypted_meta.file_path == b.meta.encrypted_meta.file_path
    &&& a.meta.trash_meta.file_path == b.meta.trash_meta.file_path
    &&& a.active().passwords == b.active().passwords && a.active().files == b.active().files
    &&& a.encrypted().passwords == b.encrypted().passwords && a.encrypted().files == b.encrypted().files
    &&& a.trash().passwords == b.trash().passwords && a.trash().files == b.trash().files
}

/// The first position of a password named `name`.
pub fn position_of_password(v: &Vec<PasswordEntry>, name: &str) -> (r: Option<usize>)
    ensures
        lookup_result(password_names(v@), name@, r),
{
    let target = String::from_str(name);
    let mut i: usize = 0;
    while i < v.len()
        invariant
            0 <= i <= v@.len(),
            target@ == name@,
            forall|j: int| 0 <= j < i ==> v@[j].name@ != name@,
        decreases v@.len() - i,
    {
        if v[i].name == target {
            return Some(i);
        }
        i = i + 1;
    }
    assert(!password_names(v@).contains(name@)) by {
        assert forall|j: int| 0 <= j < password_names(v@).len() implies password_names(v@)[j] != name@ by {
            assert(v@[j].name@ != name@);
        }
    }
    None
}

/// The first position of a file whose logical name is `name`.
pub fn position_of_file(v: &Vec<FileEntry>, name: &str) -> (r: Option<usize>)
    ensures
        lookup_result(file_names(v@), name@, r),
{
    let target = String::from_str(name);
    let mut i: usize = 0;
    while i < v.len()
        invariant
            0 <= i <= v@.len(),
            target@ == name@,
            forall|j: int| 0 <= j < i ==> v@[j].name@ != name@,
        decreases v@.len() - i,
    {
        if v[i].name == target {
            return Some(i);
        }
        i = i + 1;
    }
    assert(!file_names(v@).contains(name@)) by {
        assert forall|j: int| 0 <= j < file_names(v@).len() implies file_names(v@)[j] != name@ by {
            assert(v@[j].name@ != name@);
        }
    }
    None
}

/// The first position of a file whose stored file name is `file_name`.
pub fn position_of_stored_file(v: &Vec<FileEntry>, file_name: &str) -> (r: Option<usize>)
    ensures
        lookup_result(stored_file_names(v@), file_name@, r),
{
    let target = String::from_str(file_name);
    let mut i: usize = 0;
    while i < v.len()
        invariant
            0 <= i <= v@.len(),
            target@ == file_name@,
            forall|j: int| 0 <= j < i ==> v@[j].file_name@ != file_name@,
        decreases v@.len() - i,
    {
        if v[i].file_name == target {
            return Some(i);
        }
        i = i + 1;
    }
    assert(!stored_file_names(v@).contains(file_name@)) by {
        assert forall|j: int| 0 <= j < stored_file_names(v@).len() implies stored_file_names(v@)[j] != file_name@ by {
            assert(v@[j].file_name@ != file_name@);
        }
    }
    None
}

/// The first position of a folder named `name`.
pub fn position_of_folder(v: &Vec<FolderEntry>, name: &str) -> (r: Option<usize>)
    ensures
        lookup_result(folder_names(v@), name@, r),
{
    let target = String::from_str(name);
    let mut i: usize = 0;
    while i < v.len()
        invariant
            0 <= i <= v@.len(),
            target@ == name@,
            forall|j: int| 0 <= j < i ==> v@[j].name@ != name@,
        decreases v@.len() - i,
    {
        if v[i].name == target {
            return Some(i);
        }
        i = i + 1;
    }
    assert(!folder_names(v@).contains(name@)) by {
        assert forall|j: int| 0 <= j < folder_names(v@).len() implies folder_names(v@)[j] != name@ by {
            assert(v@[j].name@ != name@);
        }
    }
    None
}

} // verus!
