//! Listing and case-insensitive searching of the partitions.
use vstd::prelude::*;
use vstd::string::{StrSliceExecFns, StringExecFns};
use crate::primitives::{lowercase_of, to_lowercase};
use crate::structs::{Database, FileEntry, FolderEntry, PasswordEntry};

verus! {

/// The status argument is present and equals `word`.
pub open spec fn status_is(status: Option<&str>, word: Seq<char>) -> bool {
    match status {
        Some(s) => s@ == word,
        None => false,
    }
}

/// `needle` occurs in `hay` as a contiguous run of characters.
pub open spec fn occurs_in(needle: Seq<char>, hay: Seq<char>) -> bool {
    exists|i: int| 0 <= i && i + needle.len() <= hay.len() && #[trigger] hay.subrange(i, i + needle.len()) == needle
}

/// A name matches a query when the query, lowercased, occurs in the name,
/// lowercased.
pub open spec fn name_matches_query(name: Seq<char>, query: Seq<char>) -> bool {
    occurs_in(lowercase_of(query), lowercase_of(name))
}

pub(crate) fn chars_of(s: &str) -> (r: Vec<char>)
    ensures
        r@ == s@,
{
    let n = s.unicode_len();
    let mut out: Vec<char> = Vec::new();
    let mut i: usize = 0;
    while i < n
        invariant
            n == s@.len(),
            0 <= i <= n,
            out@ == s@.subrange(0, i as int),
        decreases n - i,
    {
        out.push(s.get_char(i));
        assert(out@ =~= s@.subrange(0, i + 1));
        i = i + 1;
    }
    out
}

/// Whether `lower_query` occurs in `lower_name`; both are expected to be
/// lowercased already.
pub fn name_matches(lower_name: &str, lower_query: &str) -> (r: bool)
    ensures
        r == occurs_in(lower_query@, lower_name@),
{
    let hay = chars_of(lower_name);
    let needle = chars_of(lower_query);
    if needle.len() == 0 {
        assert(lower_name@.subrange(0, 0 + lower_query@.len() as int) =~= lower_query@);
        return true;
    }
    if needle.len() > hay.len() {
        return false;
    }
    let last = hay.len() - needle.len();
    let mut i: usize = 0;
    while i <= last
        invariant
            hay@ == lower_name@,
            needle@ == lower_query@,
            last + needle.len() == hay.len(),
            needle.len() > 0,
            0 <= i <= last + 1,
            forall|k: int| 0 <= k < i ==> #[trigger] hay@.subrange(k, k + needle@.len()) != needle@,
        decreases last + 1 - i,
    {
        let mut j: usize = 0;
        let mut same = true;
        while j < needle.len()
            invariant
                hay@ == lower_name@,
                needle@ == lower_query@,
                i <= last,
                last + needle.len() == hay.len(),
                0 <= j <= needle@.len(),
                same == (forall|m: int| 0 <= m < j ==> hay@[i + m] == needle@[m]),
            decreases needle@.len() - j,
        {
            if hay[i + j] != needle[j] {
                same = false;
            }
            j = j + 1;
        }
        if same {
            assert(hay@.subrange(i as int, i + needle@.len()) =~= needle@);
            return true;
        }
        assert(hay@.subrange(i as int, i + needle@.len()) != needle@) by {
            let m = choose|m: int| 0 <= m < needle@.len() && hay@[i + m] != needle@[m];
            assert(hay@.subrange(i as int, i + needle@.len())[m] == hay@[i + m]);
        }
        i = i + 1;
    }
    false
}

fn query_matches(name: &String, lower_query: &String) -> (r: bool)
    ensures
        r == occurs_in(lower_query@, lowercase_of(name@)),
{
    let lower_name = to_lowercase(name.as_str());
    name_matches(lower_name.as_str(), lower_query.as_str())
}

/// The files in `s` that match `query`.
pub open spec fn files_matching(s: Seq<FileEntry>, query: Seq<char>) -> Seq<FileEntry> {
    s.filter(|e: FileEntry| name_matches_query(e.name@, query))
}

/// The entries that a list of references points to.
pub open spec fn files_behind(r: Seq<&FileEntry>) -> Seq<FileEntry> {
    r.map_values(|e: &FileEntry| *e)
}

fn files_refs<'a>(v: &'a Vec<FileEntry>, out: &mut Vec<&'a FileEntry>)
    ensures
        files_behind(final(out)@) == files_behind(old(out)@) + v@,
{
    let ghost start = files_behind(out@);
    let mut i: usize = 0;
    while i < v.len()
        invariant
            0 <= i <= v@.len(),
            files_behind(out@) == start + v@.subrange(0, i as int),
        decreases v@.len() - i,
    {
        let ghost prev = files_behind(out@);
        out.push(&v[i]);
        assert(files_behind(out@) =~= prev.push(v@[i as int]));
        assert(v@.subrange(0, i + 1) =~= v@.subrange(0, i as int).push(v@[i as int]));
        i = i + 1;
    }
    assert(v@.subrange(0, i as int) =~= v@);
}

fn files_search<'a>(v: &'a Vec<FileEntry>, query: &str, out: &mut Vec<&'a FileEntry>)
    ensures
        files_behind(final(out)@) == files_behind(old(out)@) + files_matching(v@, query@),
{
    let ghost start = files_behind(out@);
    let lower_query = to_lowercase(query);
    let mut i: usize = 0;
    while i < v.len()
        invariant
            0 <= i <= v@.len(),
            lower_query@ == lowercase_of(query@),
            files_behind(out@) == start + files_matching(v@.subrange(0, i as int), query@),
        decreases v@.len() - i,
    {
        let ghost prev = files_behind(out@);
        let ghost sub = v@.subrange(0, i + 1);
        assert(sub.drop_last() =~= v@.subrange(0, i as int));
        assert(sub.last() == v@[i as int]);
        reveal(Seq::filter);
        assert(files_matching(sub, query@) == if name_matches_query(v@[i as int].name@, query@) {
            files_matching(v@.subrange(0, i as int), query@).push(v@[i as int])
        } else {
            files_matching(v@.subrange(0, i as int), query@)
        });
        if query_matches(&v[i].name, &lower_query) {
            out.push(&v[i]);
            assert(files_behind(out@) =~= prev.push(v@[i as int]));
        }
        i = i + 1;
    }
    assert(v@.subrange(0, i as int) =~= v@);
}

/// The passwords in `s` that match `query`.
pub open spec fn passwords_matching(s: Seq<PasswordEntry>, query: Seq<char>) -> Seq<PasswordEntry> {
    s.filter(|e: PasswordEntry| name_matches_query(e.name@, query))
}

/// The entries that a list of references points to.
pub open spec fn passwords_behind(r: Seq<&PasswordEntry>) -> Seq<PasswordEntry> {
    r.map_values(|e: &PasswordEntry| *e)
}

fn passwords_refs<'a>(v: &'a Vec<PasswordEntry>, out: &mut Vec<&'a PasswordEntry>)
    ensures
        passwords_behind(final(out)@) == passwords_behind(old(out)@) + v@,
{
    let ghost start = passwords_behind(out@);
    let mut i: usize = 0;
    while i < v.len()
        invariant
            0 <= i <= v@.len(),
            passwords_behind(out@) == start + v@.subrange(0, i as int),
        decreases v@.len() - i,
    {
        let ghost prev = passwords_behind(out@);
        out.push(&v[i]);
        assert(passwords_behind(out@) =~= prev.push(v@[i as int]));
        assert(v@.subrange(0, i + 1) =~= v@.subrange(0, i as int).push(v@[i as int]));
        i = i + 1;
    }
    assert(v@.subrange(0, i as int) =~= v@);
}

fn passwords_search<'a>(v: &'a Vec<PasswordEntry>, query: &str, out: &mut Vec<&'a PasswordEntry>)
    ensures
        passwords_behind(final(out)@) == passwords_behind(old(out)@) + passwords_matching(v@, query@),
{
    let ghost start = passwords_behind(out@);
    let lower_query = to_lowercase(query);
    let mut i: usize = 0;
    while i < v.len()
        invariant
            0 <= i <= v@.len(),
            lower_query@ == lowercase_of(query@),
            passwords_behind(out@) == start + passwords_matching(v@.subrange(0, i as int), query@),
        decreases v@.len() - i,
    {
        let ghost prev = passwords_behind(out@);
        let ghost sub = v@.subrange(0, i + 1);
        assert(sub.drop_last() =~= v@.subrange(0, i as int));
        assert(sub.last() == v@[i as int]);
        reveal(Seq::filter);
        assert(passwords_matching(sub, query@) == if name_matches_query(v@[i as int].name@, query@) {
            passwords_matching(v@.subrange(0, i as int), query@).push(v@[i as int])
        } else {
            passwords_matching(v@.subrange(0, i as int), query@)
        });
        if query_matches(&v[i].name, &lower_query) {
            out.push(&v[i]);
            assert(passwords_behind(out@) =~= prev.push(v@[i as int]));
        }
        i = i + 1;
    }
    assert(v@.subrange(0, i as int) =~= v@);
}

/// The folders in `s` that match `query`.
pub open spec fn folders_matching(s: Seq<FolderEntry>, query: Seq<char>) -> Seq<FolderEntry> {
    s.filter(|e: FolderEntry| name_matches_query(e.name@, query))
}

/// The entries that a list of references points to.
pub open spec fn folders_behind(r: Seq<&FolderEntry>) -> Seq<FolderEntry> {
    r.map_values(|e: &FolderEntry| *e)
}

fn folders_refs<'a>(v: &'a Vec<FolderEntry>, out: &mut Vec<&'a FolderEntry>)
    ensures
        folders_behind(final(out)@) == folders_behind(old(out)@) + v@,
{
    let ghost start = folders_behind(out@);
    let mut i: usize = 0;
    while i < v.len()
        invariant
            0 <= i <= v@.len(),
            folders_behind(out@) == start + v@.subrange(0, i as int),
        decreases v@.len() - i,
    {
        let ghost prev = folders_behind(out@);
        out.push(&v[i]);
        assert(folders_behind(out@) =~= prev.push(v@[i as int]));
        assert(v@.subrange(0, i + 1) =~= v@.subrange(0, i as int).push(v@[i as int]));
        i = i + 1;
    }
    assert(v@.subrange(0, i as int) =~= v@);
}

fn folders_search<'a>(v: &'a Vec<FolderEntry>, query: &str, out: &mut Vec<&'a FolderEntry>)
    ensures
        folders_behind(final(out)@) == folders_behind(old(out)@) + folders_matching(v@, query@),
{
    let ghost start = folders_behind(out@);
    let lower_query = to_lowercase(query);
    let mut i: usize = 0;
    while i < v.len()
        invariant
            0 <= i <= v@.len(),
            lower_query@ == lowercase_of(query@),
            folders_behind(out@) == start + folders_matching(v@.subrange(0, i as int), query@),
        decreases v@.len() - i,
    {
        let ghost prev = folders_behind(out@);
        let ghost sub = v@.subrange(0, i + 1);
        assert(sub.drop_last() =~= v@.subrange(0, i as int));
        assert(sub.last() == v@[i as int]);
        reveal(Seq::filter);
        assert(folders_matching(sub, query@) == if name_matches_query(v@[i as int].name@, query@) {
            folders_matching(v@.subrange(0, i as int), query@).push(v@[i as int])
        } else {
            folders_matching(v@.subrange(0, i as int), query@)
        });
        if query_matches(&v[i].name, &lower_query) {
            out.push(&v[i]);
            assert(folders_behind(out@) =~= prev.push(v@[i as int]));
        }
        i = i + 1;
    }
    assert(v@.subrange(0, i as int) =~= v@);
}

impl Database {
    /// Active files whose name matches `query`, ignoring case.
    pub fn search_decrypted_files(&self, query: &str) -> (r: Vec<&FileEntry>)
        ensures
            files_behind(r@) == files_matching(self.active().files@, query@),
    {
        let mut out: Vec<&FileEntry> = Vec::new();
        files_search(&self.meta.decrypted_meta.data.files, query, &mut out);
        assert(files_behind(out@) =~= files_matching(self.active().files@, query@));
        out
    }

    /// Active passwords whose name matches `query`, ignoring case.
    pub fn search_decrypted_passwords(&self, query: &str) -> (r: Vec<&PasswordEntry>)
        ensures
            passwords_behind(r@) == passwords_matching(self.active().passwords@, query@),
    {
        let mut out: Vec<&PasswordEntry> = Vec::new();
        passwords_search(&self.meta.decrypted_meta.data.passwords, query, &mut out);
        assert(passwords_behind(out@) =~= passwords_matching(self.active().passwords@, query@));
        out
    }

    /// The encrypted files.
    pub fn list_encrypted_files(&self) -> (r: Vec<&FileEntry>)
        ensures
            files_behind(r@) == self.encrypted().files@,
    {
        let mut out: Vec<&FileEntry> = Vec::new();
        files_refs(&self.meta.encrypted_meta.data.files, &mut out);
        assert(files_behind(out@) =~= self.encrypted().files@);
        out
    }

    /// The encrypted passwords.
    pub fn list_encrypted_passwords(&self) -> (r: Vec<&PasswordEntry>)
        ensures
            passwords_behind(r@) == self.encrypted().passwords@,
    {
        let mut out: Vec<&PasswordEntry> = Vec::new();
        passwords_refs(&self.meta.encrypted_meta.data.passwords, &mut out);
        assert(passwords_behind(out@) =~= self.encrypted().passwords@);
        out
    }

    /// Encrypted passwords whose name matches `query`, ignoring case.
    pub fn search_encrypted_passwords(&self, query: &str) -> (r: Vec<&PasswordEntry>)
        ensures
            passwords_behind(r@) == passwords_matching(self.encrypted().passwords@, query@),
    {
        let mut out: Vec<&PasswordEntry> = Vec::new();
        passwords_search(&self.meta.encrypted_meta.data.passwords, query, &mut out);
        assert(passwords_behind(out@) =~= passwords_matching(self.encrypted().passwords@, query@));
        out
    }

    /// Encrypted files whose name matches `query`, ignoring case.
    pub fn search_encrypted_files(&self, query: &str) -> (r: Vec<&FileEntry>)
        ensures
            files_behind(r@) == files_matching(self.encrypted().files@, query@),
    {
        let mut out: Vec<&FileEntry> = Vec::new();
        files_search(&self.meta.encrypted_meta.data.files, query, &mut out);
        assert(files_behind(out@) =~= files_matching(self.encrypted().files@, query@));
        out
    }

    /// The trashed files.
    pub fn list_deleted_files(&self) -> (r: Vec<&FileEntry>)
        ensures
            files_behind(r@) == self.trash().files@,
    {
        let mut out: Vec<&FileEntry> = Vec::new();
        files_refs(&self.meta.trash_meta.data.files, &mut out);
        assert(files_behind(out@) =~= self.trash().files@);
        out
    }

    /// The trashed passwords.
    pub fn list_deleted_passwords(&self) -> (r: Vec<&PasswordEntry>)
        ensures
            passwords_behind(r@) == self.trash().passwords@,
    {
        let mut out: Vec<&PasswordEntry> = Vec::new();
        passwords_refs(&self.meta.trash_meta.data.passwords, &mut out);
        assert(passwords_behind(out@) =~= self.trash().passwords@);
        out
    }

    /// Trashed files whose name matches `query`, ignoring case.
    pub fn search_deleted_files(&self, query: &str) -> (r: Vec<&FileEntry>)
        ensures
            files_behind(r@) == files_matching(self.trash().files@, query@),
    {
        let mut out: Vec<&FileEntry> = Vec::new();
        files_search(&self.meta.trash_meta.data.files, query, &mut out);
        assert(files_behind(out@) =~= files_matching(self.trash().files@, query@));
        out
    }

    /// Trashed passwords whose name matches `query`, ignoring case.
    pub fn search_deleted_passwords(&self, query: &str) -> (r: Vec<&PasswordEntry>)
        ensures
            passwords_behind(r@) == passwords_matching(self.trash().passwords@, query@),
    {
        let mut out: Vec<&PasswordEntry> = Vec::new();
        passwords_search(&self.meta.trash_meta.data.passwords, query, &mut out);
        assert(passwords_behind(out@) =~= passwords_matching(self.trash().passwords@, query@));
        out
    }

    /// Active files, then encrypted ones.
    pub fn list_all_files(&self) -> (r: Vec<&FileEntry>)
        ensures
            files_behind(r@) == self.active().files@ + self.encrypted().files@,
    {
        let mut out: Vec<&FileEntry> = Vec::new();
        files_refs(&self.meta.decrypted_meta.data.files, &mut out);
        files_refs(&self.meta.encrypted_meta.data.files, &mut out);
        assert(files_behind(out@) =~= self.active().files@ + self.encrypted().files@);
        out
    }

    /// Active passwords, then encrypted ones.
    pub fn list_all_passwords(&self) -> (r: Vec<&PasswordEntry>)
        ensures
            passwords_behind(r@) == self.active().passwords@ + self.encrypted().passwords@,
    {
        let mut out: Vec<&PasswordEntry> = Vec::new();
        passwords_refs(&self.meta.decrypted_meta.data.passwords, &mut out);
        passwords_refs(&self.meta.encrypted_meta.data.passwords, &mut out);
        assert(passwords_behind(out@) =~= self.active().passwords@ + self.encrypted().passwords@);
        out
    }

    /// The active folders.
    pub fn list_decrypted_folders(&self) -> (r: Vec<&FolderEntry>)
        ensures
            folders_behind(r@) == self.active().folders@,
    {
        let mut out: Vec<&FolderEntry> = Vec::new();
        folders_refs(&self.meta.decrypted_meta.data.folders, &mut out);
        assert(folders_behind(out@) =~= self.active().folders@);
        out
    }

    /// The encrypted folders.
    pub fn list_encrypted_folders(&self) -> (r: Vec<&FolderEntry>)
        ensures
            folders_behind(r@) == self.encrypted().folders@,
    {
        let mut out: Vec<&FolderEntry> = Vec::new();
        folders_refs(&self.meta.encrypted_meta.data.folders, &mut out);
        assert(folders_behind(out@) =~= self.encrypted().folders@);
        out
    }

    /// The trashed folders.
    pub fn list_deleted_folders(&self) -> (r: Vec<&FolderEntry>)
        ensures
            folders_behind(r@) == self.trash().folders@,
    {
        let mut out: Vec<&FolderEntry> = Vec::new();
        folders_refs(&self.meta.trash_meta.data.folders, &mut out);
        assert(folders_behind(out@) =~= self.trash().folders@);
        out
    }

    /// Active folders, then encrypted ones.
    pub fn list_all_folders(&self) -> (r: Vec<&FolderEntry>)
        ensures
            folders_behind(r@) == self.active().folders@ + self.encrypted().folders@,
    {
        let mut out: Vec<&FolderEntry> = Vec::new();
        folders_refs(&self.meta.decrypted_meta.data.folders, &mut out);
        folders_refs(&self.meta.encrypted_meta.data.folders, &mut out);
        assert(folders_behind(out@) =~= self.active().folders@ + self.encrypted().folders@);
        out
    }

    /// Active folders whose name matches `query`, ignoring case.
    pub fn search_decrypted_folders(&self, query: &str) -> (r: Vec<&FolderEntry>)
        ensures
            folders_behind(r@) == folders_matching(self.active().folders@, query@),
    {
        let mut out: Vec<&FolderEntry> = Vec::new();
        folders_search(&self.meta.decrypted_meta.data.folders, query, &mut out);
        assert(folders_behind(out@) =~= folders_matching(self.active().folders@, query@));
        out
    }

    /// Encrypted folders whose name matches `query`, ignoring case.
    pub fn search_encrypted_folders(&self, query: &str) -> (r: Vec<&FolderEntry>)
        ensures
            folders_behind(r@) == folders_matching(self.encrypted().folders@, query@),
    {
        let mut out: Vec<&FolderEntry> = Vec::new();
        folders_search(&self.meta.encrypted_meta.data.folders, query, &mut out);
        assert(folders_behind(out@) =~= folders_matching(self.encrypted().folders@, query@));
        out
    }

    /// Trashed folders whose name matches `query`, ignoring case.
    pub fn search_deleted_folders(&self, query: &str) -> (r: Vec<&FolderEntry>)
        ensures
            folders_behind(r@) == folders_matching(self.trash().folders@, query@),
    {
        let mut out: Vec<&FolderEntry> = Vec::new();
        folders_search(&self.meta.trash_meta.data.folders, query, &mut out);
        assert(folders_behind(out@) =~= folders_matching(self.trash().folders@, query@));
        out
    }

    /// Active, then encrypted folders whose name matches `query`, ignoring case.
    pub fn search_all_folders(&self, query: &str) -> (r: Vec<&FolderEntry>)
        ensures
            folders_behind(r@) == folders_matching(self.active().folders@, query@) + folders_matching(self.encrypted().folders@, query@),
    {
        let mut out: Vec<&FolderEntry> = Vec::new();
        folders_search(&self.meta.decrypted_meta.data.folders, query, &mut out);
        folders_search(&self.meta.encrypted_meta.data.folders, query, &mut out);
        assert(folders_behind(out@) =~= folders_matching(self.active().folders@, query@) + folders_matching(self.encrypted().folders@, query@));
        out
    }

    /// The trashed folders.
    pub fn list_recycled_folders(&self) -> (r: Vec<&FolderEntry>)
        ensures
            folders_behind(r@) == self.trash().folders@,
    {
        let mut out: Vec<&FolderEntry> = Vec::new();
        folders_refs(&self.meta.trash_meta.data.folders, &mut out);
        assert(folders_behind(out@) =~= self.trash().folders@);
        out
    }

    /// Files by status: `active` lists the active partition, `recycled`
    /// the trash, anything else both (active first).
    pub fn list_decrypted_files(&self, status: Option<&str>) -> (r: Vec<&FileEntry>)
        ensures
            status_is(status, "active"@) ==> files_behind(r@) == self.active().files@,
            status_is(status, "recycled"@) ==> files_behind(r@) == self.trash().files@,
            !status_is(status, "active"@) && !status_is(status, "recycled"@) ==> files_behind(r@) == self.active().files@ + self.trash().files@,
    {
        let mut out: Vec<&FileEntry> = Vec::new();
        proof {
            reveal_strlit("active");
            reveal_strlit("recycled");
            assert("active"@.len() == 6 && "recycled"@.len() == 8);
        }
        let (active, recycled) = match status {
            Some(s) => {
                let given = String::from_str(s);
                proof {
                    reveal_strlit("active");
                    reveal_strlit("recycled");
                }
                (given == String::from_str("active"), given == String::from_str("recycled"))
            },
            None => (false, false),
        };
        if active {
            files_refs(&self.meta.decrypted_meta.data.files, &mut out);
            assert(files_behind(out@) =~= self.active().files@);
        } else if recycled {
            files_refs(&self.meta.trash_meta.data.files, &mut out);
            assert(files_behind(out@) =~= self.trash().files@);
        } else {
            files_refs(&self.meta.decrypted_meta.data.files, &mut out);
            files_refs(&self.meta.trash_meta.data.files, &mut out);
            assert(files_behind(out@) =~= self.active().files@ + self.trash().files@);
        }
        out
    }

    /// Passwords by status: `recycled` lists the trash, anything else the
    /// active partition.
    pub fn list_decrypted_passwords(&self, status: Option<&str>) -> (r: Vec<&PasswordEntry>)
        ensures
            status_is(status, "recycled"@) ==> passwords_behind(r@) == self.trash().passwords@,
            !status_is(status, "recycled"@) ==> passwords_behind(r@) == self.active().passwords@,
    {
        let mut out: Vec<&PasswordEntry> = Vec::new();
        let recycled = match status {
            Some(s) => String::from_str(s) == String::from_str("recycled"),
            None => false,
        };
        if recycled {
            passwords_refs(&self.meta.trash_meta.data.passwords, &mut out);
            assert(passwords_behind(out@) =~= self.trash().passwords@);
        } else {
            passwords_refs(&self.meta.decrypted_meta.data.passwords, &mut out);
            assert(passwords_behind(out@) =~= self.active().passwords@);
        }
        out
    }
}

} // verus!
