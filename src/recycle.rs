//! The recycle bin: moving items to the trash partition, bringing them
//! back under a free name, and emptying the bin for good.
use vstd::prelude::*;
use vstd::string::StringExecFns;
use crate::naming::{first_free_name, is_first_free, string_views};
use crate::partition::{
    distinct_names, file_names, is_first_position, password_names, position_of_password,
    same_but_passwords,
};
use crate::passwords::lemma_push_fresh_keeps_distinct;
use crate::files::{
    dotted_extension_of, file_moved, file_paths, file_relocated, joined, push_file_paths, stem_and_extension,
    stem_of, Transfer,
};
use crate::partition::{position_of_file, same_but_files, stored_file_names};
use crate::structs::{Database, FileEntry, PasswordEntry, VaultError};
use crate::time::now;

verus! {

/// `after` is the recycled form of `before`: only the recycled flag is set.
pub open spec fn is_recycled_password(before: PasswordEntry, after: PasswordEntry) -> bool {
    &&& after.name == before.name
    &&& after.password == before.password
    &&& after.encrypted_item_key == before.encrypted_item_key
    &&& after.is_encrypted == before.is_encrypted
    &&& after.created_at == before.created_at
    &&& after.updated_at == before.updated_at
    &&& after.is_recycled
}

/// `after` is `before` brought back from the trash under the name `name`.
pub open spec fn is_restored_password(before: PasswordEntry, after: PasswordEntry, name: Seq<char>) -> bool {
    &&& after.name@ == name
    &&& after.password == before.password
    &&& after.encrypted_item_key == before.encrypted_item_key
    &&& after.is_encrypted == before.is_encrypted
    &&& after.created_at == before.created_at
    &&& after.updated_at == before.updated_at
    &&& !after.is_recycled
}

/// `after` is `before` with the active password at `i` moved to the trash.
pub open spec fn password_deleted(before: Database, after: Database, i: int) -> bool {
    &&& 0 <= i < before.active().passwords@.len()
    &&& same_but_passwords(after, before)
    &&& after.active().passwords@ == before.active().passwords@.remove(i)
    &&& after.encrypted().passwords == before.encrypted().passwords
    &&& after.trash().passwords@.drop_last() == before.trash().passwords@
    &&& after.trash().passwords@.len() == before.trash().passwords@.len() + 1
    &&& is_recycled_password(before.active().passwords@[i], after.trash().passwords@.last())
}

/// `after` is `before` with the trashed password at `j` restored under the
/// first of its name, its name followed by 1, 2, … that no active or
/// encrypted password uses.
pub open spec fn password_restored(before: Database, after: Database, j: int) -> bool {
    let e = before.trash().passwords@[j];
    &&& 0 <= j < before.trash().passwords@.len()
    &&& same_but_passwords(after, before)
    &&& after.trash().passwords@ == before.trash().passwords@.remove(j)
    &&& after.encrypted().passwords == before.encrypted().passwords
    &&& after.active().passwords@.drop_last() == before.active().passwords@
    &&& after.active().passwords@.len() == before.active().passwords@.len() + 1
    &&& is_first_free(e.name@, e.name@, Seq::empty(), before.password_namespace(), after.active().passwords@.last().name@)
    &&& is_restored_password(e, after.active().passwords@.last(), after.active().passwords@.last().name@)
}

/// Removing a name keeps the rest distinct.
pub proof fn lemma_remove_keeps_distinct(a: Seq<Seq<char>>, b: Seq<Seq<char>>, i: int)
    requires
        0 <= i < a.len(),
        distinct_names(a + b),
    ensures
        distinct_names(a.remove(i) + b),
{
    let s = a + b;
    let t = a.remove(i) + b;
    assert forall|k1: int, k2: int| 0 <= k1 < t.len() && 0 <= k2 < t.len() && k1 != k2 implies t[k1] != t[k2] by {
        assert(t[k1] == s[if k1 < i { k1 } else { k1 + 1 }]);
        assert(t[k2] == s[if k2 < i { k2 } else { k2 + 1 }]);
    }
}

fn push_password_names(v: &Vec<PasswordEntry>, out: &mut Vec<String>)
    ensures
        string_views(final(out)@) == string_views(old(out)@) + password_names(v@),
{
    let ghost start = string_views(out@);
    let mut i: usize = 0;
    while i < v.len()
        invariant
            0 <= i <= v@.len(),
            string_views(out@) == start + password_names(v@.subrange(0, i as int)),
        decreases v@.len() - i,
    {
        let ghost prev = string_views(out@);
        out.push(v[i].name.clone());
        proof {
            assert(string_views(out@) =~= prev.push(v@[i as int].name@));
            assert(password_names(v@.subrange(0, i + 1)) =~= password_names(v@.subrange(0, i as int)).push(v@[i as int].name@));
            assert(string_views(out@) =~= start + password_names(v@.subrange(0, i + 1)));
        }
        i = i + 1;
    }
    assert(v@.subrange(0, i as int) =~= v@);
}

fn push_file_names(v: &Vec<FileEntry>, out: &mut Vec<String>)
    ensures
        string_views(final(out)@) == string_views(old(out)@) + file_names(v@),
{
    let ghost start = string_views(out@);
    let mut i: usize = 0;
    while i < v.len()
        invariant
            0 <= i <= v@.len(),
            string_views(out@) == start + file_names(v@.subrange(0, i as int)),
        decreases v@.len() - i,
    {
        let ghost prev = string_views(out@);
        out.push(v[i].name.clone());
        proof {
            assert(string_views(out@) =~= prev.push(v@[i as int].name@));
            assert(file_names(v@.subrange(0, i + 1)) =~= file_names(v@.subrange(0, i as int)).push(v@[i as int].name@));
            assert(string_views(out@) =~= start + file_names(v@.subrange(0, i + 1)));
        }
        i = i + 1;
    }
    assert(v@.subrange(0, i as int) =~= v@);
}

impl Database {
    /// The first of `name`, `name1`, `name2`, … that no active or encrypted
    /// password uses.
    pub fn get_unique_password_name(&self, name: &str) -> (r: String)
        ensures
            is_first_free(name@, name@, Seq::empty(), self.password_namespace(), r@),
    {
        let mut taken: Vec<String> = Vec::new();
        push_password_names(&self.meta.decrypted_meta.data.passwords, &mut taken);
        push_password_names(&self.meta.encrypted_meta.data.passwords, &mut taken);
        assert(string_views(taken@) =~= self.password_namespace());
        proof {
            reveal_strlit("");
            assert(""@ =~= Seq::<char>::empty());
        }
        first_free_name(name, name, "", &taken)
    }

    /// The first of `name`, `name1`, `name2`, … that no active or encrypted
    /// file uses as its logical name.
    pub fn get_unique_name_for_file(&self, name: &str) -> (r: String)
        ensures
            is_first_free(name@, name@, Seq::empty(), self.file_namespace(), r@),
    {
        let mut taken: Vec<String> = Vec::new();
        push_file_names(&self.meta.decrypted_meta.data.files, &mut taken);
        push_file_names(&self.meta.encrypted_meta.data.files, &mut taken);
        assert(string_views(taken@) =~= self.file_namespace());
        proof {
            reveal_strlit("");
            assert(""@ =~= Seq::<char>::empty());
        }
        first_free_name(name, name, "", &taken)
    }

    /// Moves the active password `name` to the trash. Fails with `NotFound`
    /// when no active password has that name.
    pub fn delete_password(&mut self, name: &str) -> (r: Result<(), VaultError>)
        ensures
            r is Err <==> !password_names(old(self).active().passwords@).contains(name@),
            r is Err ==> r == Err::<(), VaultError>(VaultError::NotFound) && *final(self) == *old(self),
            forall|i: int| is_first_position(password_names(old(self).active().passwords@), name@, i)
                ==> (r is Ok ==> password_deleted(*old(self), *final(self), i)),
            old(self).wf() ==> final(self).wf(),
    {
        let ghost before = *self;
        let pos = match position_of_password(&self.meta.decrypted_meta.data.passwords, name) {
            Some(p) => p,
            None => return Err(VaultError::NotFound),
        };
        let mut entry = self.meta.decrypted_meta.data.passwords.remove(pos);
        entry.is_recycled = true;
        self.meta.trash_meta.data.passwords.push(entry);
        proof {
            assert(self.trash().passwords@.drop_last() =~= before.trash().passwords@);
            let la = password_names(before.active().passwords@);
            let lb = password_names(before.encrypted().passwords@);
            assert(password_names(before.active().passwords@ + before.encrypted().passwords@) =~= la + lb);
            assert(password_names(self.active().passwords@ + self.encrypted().passwords@) =~= la.remove(pos as int) + lb);
            if before.wf() {
                lemma_remove_keeps_distinct(la, lb, pos as int);
            }
        }
        Ok(())
    }

    /// Brings the trashed password `name` back to the active partition
    /// under the first free form of its name. Fails with `NotFound` when
    /// the trash holds no password of that name.
    pub fn restore_password(&mut self, name: &str) -> (r: Result<(), VaultError>)
        ensures
            r is Err <==> !password_names(old(self).trash().passwords@).contains(name@),
            r is Err ==> r == Err::<(), VaultError>(VaultError::NotFound) && *final(self) == *old(self),
            forall|j: int| is_first_position(password_names(old(self).trash().passwords@), name@, j)
                ==> (r is Ok ==> password_restored(*old(self), *final(self), j)),
            old(self).wf() ==> final(self).wf(),
    {
        let ghost before = *self;
        let pos = match position_of_password(&self.meta.trash_meta.data.passwords, name) {
            Some(p) => p,
            None => return Err(VaultError::NotFound),
        };
        let mut entry = self.meta.trash_meta.data.passwords.remove(pos);
        entry.is_recycled = false;
        let fresh = self.get_unique_password_name(&entry.name);
        entry.name = fresh;
        self.meta.decrypted_meta.data.passwords.push(entry);
        proof {
            assert(self.active().passwords@.drop_last() =~= before.active().passwords@);
            let la = password_names(before.active().passwords@);
            let lb = password_names(before.encrypted().passwords@);
            assert(before.password_namespace() == la + lb);
            assert(password_names(before.active().passwords@ + before.encrypted().passwords@) =~= la + lb);
            assert(password_names(self.active().passwords@) =~= la.push(fresh@));
            assert(password_names(self.active().passwords@ + self.encrypted().passwords@) =~= la.push(fresh@) + lb);
            if before.wf() {
                lemma_push_fresh_keeps_distinct(la, lb, fresh@);
            }
        }
        Ok(())
    }
}

impl Database {
    /// Moves every active password to the trash, in order.
    pub fn delete_all_passwords(&mut self) -> (r: bool)
        ensures
            r,
            same_but_passwords(*final(self), *old(self)),
            final(self).encrypted().passwords == old(self).encrypted().passwords,
            final(self).active().passwords@.len() == 0,
            final(self).trash().passwords@.len() == old(self).trash().passwords@.len() + old(self).active().passwords@.len(),
            final(self).trash().passwords@.subrange(0, old(self).trash().passwords@.len() as int) == old(self).trash().passwords@,
            forall|k: int| 0 <= k < old(self).active().passwords@.len() ==> is_recycled_password(
                #[trigger] old(self).active().passwords@[k],
                final(self).trash().passwords@[old(self).trash().passwords@.len() + k],
            ),
            old(self).wf() ==> final(self).wf(),
    {
        let ghost before = *self;
        let ghost t0 = self.trash().passwords@;
        let mut rest: Vec<PasswordEntry> = Vec::new();
        std::mem::swap(&mut rest, &mut self.meta.decrypted_meta.data.passwords);
        let ghost all = rest@;
        let n = rest.len();
        let mut k: usize = 0;
        assert(self.trash().passwords@.subrange(0, t0.len() as int) =~= t0);
        while k < n
            invariant
                n == all.len(),
                0 <= k <= n,
                all == before.active().passwords@,
                rest@ == all.subrange(k as int, n as int),
                same_but_passwords(*self, before),
                self.encrypted().passwords == before.encrypted().passwords,
                self.active().passwords@.len() == 0,
                self.trash().passwords@.len() == t0.len() + k,
                self.trash().passwords@.subrange(0, t0.len() as int) == t0,
                forall|j: int| 0 <= j < k ==> is_recycled_password(#[trigger] all[j], self.trash().passwords@[t0.len() + j]),
            decreases n - k,
        {
            let ghost prev = self.trash().passwords@;
            let mut e = rest.remove(0);
            assert(e == all[k as int]);
            assert(rest@ =~= all.subrange(k + 1, n as int));
            e.is_recycled = true;
            self.meta.trash_meta.data.passwords.push(e);
            assert(self.trash().passwords@.subrange(0, t0.len() as int) =~= prev.subrange(0, t0.len() as int));
            assert forall|j: int| 0 <= j < k + 1 implies is_recycled_password(#[trigger] all[j], self.trash().passwords@[t0.len() + j]) by {
                if j < k {
                    assert(self.trash().passwords@[t0.len() + j] == prev[t0.len() + j]);
                }
            }
            k = k + 1;
        }
        proof {
            let lb = password_names(before.encrypted().passwords@);
            assert(password_names(self.active().passwords@ + self.encrypted().passwords@) =~= lb);
            assert(password_names(before.active().passwords@ + before.encrypted().passwords@) =~= password_names(before.active().passwords@) + lb);
            if before.wf() {
                let s = password_names(before.active().passwords@) + lb;
                let la = before.active().passwords@.len() as int;
                assert forall|k1: int, k2: int| 0 <= k1 < lb.len() && 0 <= k2 < lb.len() && k1 != k2 implies lb[k1] != lb[k2] by {
                    assert(lb[k1] == s[la + k1] && lb[k2] == s[la + k2]);
                }
            }
        }
        true
    }

    /// Brings every trashed password back to the active partition, in
    /// order, each under the first free form of its name at that moment.
    /// Returns false, changing nothing, when the trash holds no password.
    pub fn restore_all_passwords(&mut self) -> (r: bool)
        ensures
            r == (old(self).trash().passwords@.len() > 0),
            !r ==> *final(self) == *old(self),
            same_but_passwords(*final(self), *old(self)),
            final(self).encrypted().passwords == old(self).encrypted().passwords,
            final(self).trash().passwords@.len() == 0,
            final(self).active().passwords@.len() == old(self).active().passwords@.len() + old(self).trash().passwords@.len(),
            final(self).active().passwords@.subrange(0, old(self).active().passwords@.len() as int) == old(self).active().passwords@,
            forall|k: int| 0 <= k < old(self).trash().passwords@.len() ==> {
                let e = #[trigger] old(self).trash().passwords@[k];
                let back = final(self).active().passwords@[old(self).active().passwords@.len() + k];
                &&& is_restored_password(e, back, back.name@)
                &&& is_first_free(
                    e.name@,
                    e.name@,
                    Seq::empty(),
                    password_names(final(self).active().passwords@.subrange(0, old(self).active().passwords@.len() + k))
                        + password_names(old(self).encrypted().passwords@),
                    back.name@,
                )
            },
            old(self).wf() ==> final(self).wf(),
    {
        if self.meta.trash_meta.data.passwords.len() == 0 {
            return false;
        }
        let ghost before = *self;
        let ghost a0 = self.active().passwords@;
        let mut rest: Vec<PasswordEntry> = Vec::new();
        std::mem::swap(&mut rest, &mut self.meta.trash_meta.data.passwords);
        let ghost all = rest@;
        let n = rest.len();
        let mut k: usize = 0;
        assert(self.active().passwords@.subrange(0, a0.len() as int) =~= a0);
        while k < n
            invariant
                n == all.len(),
                0 <= k <= n,
                all == before.trash().passwords@,
                a0 == before.active().passwords@,
                rest@ == all.subrange(k as int, n as int),
                same_but_passwords(*self, before),
                self.encrypted().passwords == before.encrypted().passwords,
                self.trash().passwords@.len() == 0,
                self.active().passwords@.len() == a0.len() + k,
                self.active().passwords@.subrange(0, a0.len() as int) == a0,
                forall|j: int| 0 <= j < k ==> {
                    let e = #[trigger] all[j];
                    let back = self.active().passwords@[a0.len() + j];
                    &&& is_restored_password(e, back, back.name@)
                    &&& is_first_free(
                        e.name@,
                        e.name@,
                        Seq::empty(),
                        password_names(self.active().passwords@.subrange(0, a0.len() + j)) + password_names(before.encrypted().passwords@),
                        back.name@,
                    )
                },
                before.wf() ==> self.wf(),
            decreases n - k,
        {
            let ghost prev = *self;
            let mut e = rest.remove(0);
            assert(e == all[k as int]);
            assert(rest@ =~= all.subrange(k + 1, n as int));
            e.is_recycled = false;
            let fresh = self.get_unique_password_name(&e.name);
            e.name = fresh;
            self.meta.decrypted_meta.data.passwords.push(e);
            proof {
                assert(self.active().passwords@.subrange(0, a0.len() as int) =~= prev.active().passwords@.subrange(0, a0.len() as int));
                assert(self.active().passwords@.subrange(0, a0.len() + k) =~= prev.active().passwords@);
                assert forall|j: int| 0 <= j < k + 1 implies {
                    let e = #[trigger] all[j];
                    let back = self.active().passwords@[a0.len() + j];
                    &&& is_restored_password(e, back, back.name@)
                    &&& is_first_free(
                        e.name@,
                        e.name@,
                        Seq::empty(),
                        password_names(self.active().passwords@.subrange(0, a0.len() + j)) + password_names(before.encrypted().passwords@),
                        back.name@,
                    )
                } by {
                    if j < k {
                        assert(self.active().passwords@[a0.len() + j] == prev.active().passwords@[a0.len() + j]);
                        assert(self.active().passwords@.subrange(0, a0.len() + j) =~= prev.active().passwords@.subrange(0, a0.len() + j));
                    }
                }
                let la = password_names(prev.active().passwords@);
                let lb = password_names(prev.encrypted().passwords@);
                assert(password_names(prev.active().passwords@ + prev.encrypted().passwords@) =~= la + lb);
                assert(password_names(self.active().passwords@ + self.encrypted().passwords@) =~= la.push(fresh@) + lb);
                if before.wf() {
                    lemma_push_fresh_keeps_distinct(la, lb, fresh@);
                }
            }
            k = k + 1;
        }
        true
    }
}

/// Deleting an active password and restoring that same entry brings its
/// value, key and flags back to the active partition, under the first of
/// its name, its name followed by 1, 2, … that is not in use; when the
/// vault keeps names distinct, that is its own name.
pub proof fn lemma_delete_then_restore_password(d0: Database, d1: Database, d2: Database, i: int, j: int)
    requires
        password_deleted(d0, d1, i),
        password_restored(d1, d2, j),
        j == d1.trash().passwords@.len() - 1,
    ensures
        d2.active().passwords@.last().password == d0.active().passwords@[i].password,
        d2.active().passwords@.last().encrypted_item_key == d0.active().passwords@[i].encrypted_item_key,
        d2.active().passwords@.last().is_encrypted == d0.active().passwords@[i].is_encrypted,
        !d2.active().passwords@.last().is_recycled,
        is_first_free(
            d0.active().passwords@[i].name@,
            d0.active().passwords@[i].name@,
            Seq::empty(),
            d1.password_namespace(),
            d2.active().passwords@.last().name@,
        ),
        d0.wf() ==> d2.active().passwords@.last().name@ == d0.active().passwords@[i].name@,
{
    let e = d0.active().passwords@[i];
    let n = e.name@;
    if d0.wf() {
        let la = password_names(d0.active().passwords@);
        let lb = password_names(d0.encrypted().passwords@);
        assert(password_names(d0.active().passwords@ + d0.encrypted().passwords@) =~= la + lb);
        assert(password_names(d1.active().passwords@) =~= la.remove(i));
        assert(!d1.password_namespace().contains(n)) by {
            assert forall|k: int| 0 <= k < d1.password_namespace().len() implies d1.password_namespace()[k] != n by {
                let s = la + lb;
                assert(s[i] == n);
                if k < la.len() - 1 {
                    assert(d1.password_namespace()[k] == s[if k < i { k } else { k + 1 }]);
                } else {
                    assert(d1.password_namespace()[k] == s[k + 1]);
                }
            }
        }
        let r = d2.active().passwords@.last().name@;
        let c = choose|c: nat| #![trigger crate::naming::candidate(n, n, Seq::<char>::empty(), c)]
            r == crate::naming::candidate(n, n, Seq::<char>::empty(), c) && !d1.password_namespace().contains(r)
                && forall|k: nat| k < c ==> d1.password_namespace().contains(#[trigger] crate::naming::candidate(n, n, Seq::<char>::empty(), k));
        if c > 0 {
            assert(d1.password_namespace().contains(crate::naming::candidate(n, n, Seq::<char>::empty(), 0)));
        }
    }
}


/// `after` is `before` brought back from the trash as `name`, stored as
/// `file_name` at `path`.
pub open spec fn file_restored_as(before: FileEntry, after: FileEntry, name: Seq<char>, file_name: Seq<char>, path: Seq<char>) -> bool {
    &&& after.name@ == name
    &&& after.file_name@ == file_name
    &&& after.file_path@ == path
    &&& after.encrypted_item_key == before.encrypted_item_key
    &&& after.size == before.size
    &&& after.extension == before.extension
    &&& after.created_at == before.created_at
    &&& after.is_encrypted == before.is_encrypted
    &&& !after.is_recycled
}

/// `after` is `before` with the active file at `i` moved to the trash and
/// recorded at `path`.
pub open spec fn file_deleted(before: Database, after: Database, i: int, path: Seq<char>) -> bool {
    &&& same_but_files(after, before)
    &&& file_moved(before.active().files@, after.active().files@, before.trash().files@, after.trash().files@, i)
    &&& file_relocated(before.active().files@[i], after.trash().files@.last(), path, before.active().files@[i].is_encrypted, true)
    &&& after.encrypted().files == before.encrypted().files
}

/// `after` is `before` with the trashed file at `j` back in the active
/// partition as `name`, stored as `file_name` at `path`.
pub open spec fn file_restored(before: Database, after: Database, j: int, name: Seq<char>, file_name: Seq<char>, path: Seq<char>) -> bool {
    &&& same_but_files(after, before)
    &&& file_moved(before.trash().files@, after.trash().files@, before.active().files@, after.active().files@, j)
    &&& file_restored_as(before.trash().files@[j], after.active().files@.last(), name, file_name, path)
    &&& after.encrypted().files == before.encrypted().files
}

impl Database {
    /// Decides how the active file `name` goes to the recycle bin: its
    /// bytes move to `<recycle files dir>/<stored name>`, or, when a trashed
    /// file already lies there, to the first of `<stem>1<ext>`,
    /// `<stem>2<ext>`, … that no trashed file lies at. Fails with
    /// `NotFound` when no active file has that name.
    pub fn plan_delete_file(&self, name: &str) -> (r: Result<Transfer, VaultError>)
        ensures
            r is Err <==> !file_names(self.active().files@).contains(name@),
            r is Err ==> r == Err::<Transfer, VaultError>(VaultError::NotFound),
            forall|i: int| #![trigger self.active().files@[i]] is_first_position(file_names(self.active().files@), name@, i) ==> (r matches Ok(t) ==> {
                let e = self.active().files@[i];
                &&& t.name@ == name@ && t.new_name@ == name@ && t.new_file_name == e.file_name
                &&& t.source_path == e.file_path
                &&& is_first_free(
                    joined(self.directories.recycle_files_dir@, e.file_name@),
                    joined(self.directories.recycle_files_dir@, stem_of(e.file_name@)),
                    dotted_extension_of(e.file_name@),
                    file_paths(self.trash().files@),
                    t.target_path@,
                )
                &&& !file_paths(self.trash().files@).contains(t.target_path@)
            }),
    {
        let pos = match position_of_file(&self.meta.decrypted_meta.data.files, name) {
            Some(p) => p,
            None => return Err(VaultError::NotFound),
        };
        let e = &self.meta.decrypted_meta.data.files[pos];
        let (stem, suffix) = stem_and_extension(e.file_name.as_str());
        let mut base = String::from_str(self.directories.recycle_files_dir.as_str());
        proof {
            reveal_strlit("/");
        }
        base.append("/");
        let mut prefix = String::from_str(base.as_str());
        base.append(e.file_name.as_str());
        prefix.append(stem);
        assert(base@ =~= joined(self.directories.recycle_files_dir@, e.file_name@));
        assert(prefix@ =~= joined(self.directories.recycle_files_dir@, stem_of(e.file_name@)));
        let mut taken: Vec<String> = Vec::new();
        push_file_paths(&self.meta.trash_meta.data.files, &mut taken);
        assert(string_views(taken@) =~= file_paths(self.trash().files@));
        let target = first_free_name(base.as_str(), prefix.as_str(), suffix, &taken);
        Ok(Transfer {
            name: String::from_str(name),
            new_name: String::from_str(name),
            new_file_name: e.file_name.clone(),
            source_path: e.file_path.clone(),
            target_path: target,
            item_key: Vec::new(),
        })
    }

    /// Moves the active file `name` to the trash, recorded at `trash_path`,
    /// once its bytes are there. Fails with `NotFound` when no active file
    /// has that name.
    pub fn commit_delete_file(&mut self, name: &str, trash_path: &str) -> (r: Result<(), VaultError>)
        ensures
            r is Err <==> !file_names(old(self).active().files@).contains(name@),
            r is Err ==> r == Err::<(), VaultError>(VaultError::NotFound) && *final(self) == *old(self),
            forall|i: int| #![trigger old(self).active().files@[i]] is_first_position(file_names(old(self).active().files@), name@, i) ==> (r is Ok ==> file_deleted(*old(self), *final(self), i, trash_path@)),
            old(self).wf() ==> final(self).wf(),
    {
        let ghost before = *self;
        let pos = match position_of_file(&self.meta.decrypted_meta.data.files, name) {
            Some(p) => p,
            None => return Err(VaultError::NotFound),
        };
        let mut entry = self.meta.decrypted_meta.data.files.remove(pos);
        entry.file_path = String::from_str(trash_path);
        entry.is_recycled = true;
        self.meta.trash_meta.data.files.push(entry);
        proof {
            assert(self.trash().files@.drop_last() =~= before.trash().files@);
            let la = file_names(before.active().files@);
            let lb = file_names(before.encrypted().files@);
            assert(file_names(before.active().files@ + before.encrypted().files@) =~= la + lb);
            assert(file_names(self.active().files@ + self.encrypted().files@) =~= la.remove(pos as int) + lb);
            if before.wf() {
                lemma_remove_keeps_distinct(la, lb, pos as int);
            }
        }
        Ok(())
    }

    /// Decides how the trashed file `name` comes back into
    /// `<decrypted files dir>/<subfolder>`: under the first free form of
    /// its logical name, and under a new stored name only when an active
    /// file is already stored under its own. Fails with `NotFound` when the
    /// trash holds no file of that name.
    pub fn plan_restore_file(&self, name: &str, subfolder: &str) -> (r: Result<Transfer, VaultError>)
        ensures
            r is Err <==> !file_names(self.trash().files@).contains(name@),
            r is Err ==> r == Err::<Transfer, VaultError>(VaultError::NotFound),
            forall|j: int| #![trigger self.trash().files@[j]] is_first_position(file_names(self.trash().files@), name@, j) ==> (r matches Ok(t) ==> {
                let e = self.trash().files@[j];
                &&& t.name@ == name@
                &&& is_first_free(e.name@, e.name@, Seq::empty(), self.file_namespace(), t.new_name@)
                &&& (!stored_file_names(self.active().files@).contains(e.file_name@) ==> t.new_file_name == e.file_name)
                &&& (stored_file_names(self.active().files@).contains(e.file_name@) ==> is_first_free(
                    e.file_name@,
                    crate::files::stem_of(e.file_name@),
                    crate::files::dotted_extension_of(e.file_name@),
                    self.stored_file_namespace(),
                    t.new_file_name@,
                ))
                &&& t.source_path == e.file_path
                &&& t.target_path@ == joined(joined(self.directories.decrypted_files_dir@, subfolder@), t.new_file_name@)
            }),
    {
        let pos = match position_of_file(&self.meta.trash_meta.data.files, name) {
            Some(p) => p,
            None => return Err(VaultError::NotFound),
        };
        let e = &self.meta.trash_meta.data.files[pos];
        let new_file_name = if crate::partition::position_of_stored_file(&self.meta.decrypted_meta.data.files, e.file_name.as_str()).is_some() {
            self.get_unique_file_name(e.file_name.as_str())
        } else {
            e.file_name.clone()
        };
        let new_name = self.get_unique_name_for_file(e.name.as_str());
        let mut target = String::from_str(self.directories.decrypted_files_dir.as_str());
        proof {
            reveal_strlit("/");
        }
        target.append("/");
        target.append(subfolder);
        target.append("/");
        target.append(new_file_name.as_str());
        assert(target@ =~= joined(joined(self.directories.decrypted_files_dir@, subfolder@), new_file_name@));
        Ok(Transfer {
            name: String::from_str(name),
            new_name,
            new_file_name,
            source_path: e.file_path.clone(),
            target_path: target,
            item_key: Vec::new(),
        })
    }

    /// Brings the trashed file `plan.name` back to the active partition
    /// under the planned names and path, once its bytes are there. Fails
    /// with `NotFound` when the trash holds no file of that name and with
    /// `DuplicateName` when the planned name has been taken meanwhile.
    pub fn commit_restore_file(&mut self, plan: &Transfer) -> (r: Result<(), VaultError>)
        ensures
            !file_names(old(self).trash().files@).contains(plan.name@) ==> r == Err::<(), VaultError>(VaultError::NotFound),
            file_names(old(self).trash().files@).contains(plan.name@) ==> (r is Err <==> old(self).file_namespace().contains(plan.new_name@)),
            r is Err ==> *final(self) == *old(self),
            forall|j: int| #![trigger old(self).trash().files@[j]] is_first_position(file_names(old(self).trash().files@), plan.name@, j) ==> (r is Ok ==> file_restored(*old(self), *final(self), j, plan.new_name@, plan.new_file_name@, plan.target_path@)),
            old(self).wf() ==> final(self).wf(),
    {
        let ghost before = *self;
        let pos = match position_of_file(&self.meta.trash_meta.data.files, plan.name.as_str()) {
            Some(p) => p,
            None => return Err(VaultError::NotFound),
        };
        if self.file_name_in_use(plan.new_name.as_str()) {
            return Err(VaultError::DuplicateName);
        }
        let mut entry = self.meta.trash_meta.data.files.remove(pos);
        entry.name = plan.new_name.clone();
        entry.file_name = plan.new_file_name.clone();
        entry.file_path = plan.target_path.clone();
        entry.is_recycled = false;
        entry.updated_at = now();
        let ghost n = entry.name@;
        self.meta.decrypted_meta.data.files.push(entry);
        proof {
            assert(self.active().files@.drop_last() =~= before.active().files@);
            let la = file_names(before.active().files@);
            let lb = file_names(before.encrypted().files@);
            assert(file_names(before.active().files@ + before.encrypted().files@) =~= la + lb);
            assert(file_names(self.active().files@ + self.encrypted().files@) =~= la.push(n) + lb);
            if before.wf() {
                lemma_push_fresh_keeps_distinct(la, lb, n);
            }
        }
        Ok(())
    }

    /// Drops the active file `name` from the vault once its bytes have been
    /// moved out of it, and hands its entry back. Fails with `NotFound`
    /// when no active file has that name.
    pub fn commit_cut_paste_file(&mut self, name: &str) -> (r: Result<FileEntry, VaultError>)
        ensures
            r is Err <==> !file_names(old(self).active().files@).contains(name@),
            r is Err ==> r == Err::<FileEntry, VaultError>(VaultError::NotFound) && *final(self) == *old(self),
            forall|i: int| #![trigger old(self).active().files@[i]] is_first_position(file_names(old(self).active().files@), name@, i) ==> (r matches Ok(e) ==> {
                &&& e == old(self).active().files@[i]
                &&& same_but_files(*final(self), *old(self))
                &&& final(self).active().files@ == old(self).active().files@.remove(i)
                &&& final(self).encrypted().files == old(self).encrypted().files
                &&& final(self).trash().files == old(self).trash().files
            }),
            old(self).wf() ==> final(self).wf(),
    {
        let ghost before = *self;
        let pos = match position_of_file(&self.meta.decrypted_meta.data.files, name) {
            Some(p) => p,
            None => return Err(VaultError::NotFound),
        };
        let entry = self.meta.decrypted_meta.data.files.remove(pos);
        proof {
            let la = file_names(before.active().files@);
            let lb = file_names(before.encrypted().files@);
            assert(file_names(before.active().files@ + before.encrypted().files@) =~= la + lb);
            assert(file_names(self.active().files@ + self.encrypted().files@) =~= la.remove(pos as int) + lb);
            if before.wf() {
                lemma_remove_keeps_distinct(la, lb, pos as int);
            }
        }
        Ok(entry)
    }

    /// Empties the recycle bin: every trashed password, file and folder is
    /// dropped for good. Returns how many of each there were. Removing the
    /// trashed bytes from disk is the caller's part.
    pub fn empty_recycle_bin(&mut self) -> (r: (usize, usize, usize))
        ensures
            r.0 == old(self).trash().passwords@.len(),
            r.1 == old(self).trash().files@.len(),
            r.2 == old(self).trash().folders@.len(),
            final(self).trash().passwords@.len() == 0,
            final(self).trash().files@.len() == 0,
            final(self).trash().folders@.len() == 0,
            final(self).active() == old(self).active(),
            final(self).encrypted() == old(self).encrypted(),
            final(self).master == old(self).master,
            final(self).config == old(self).config,
            final(self).directories == old(self).directories,
            final(self).meta.nested_db_meta == old(self).meta.nested_db_meta,
            final(self).meta.trash_meta.file_path == old(self).meta.trash_meta.file_path,
            old(self).wf() ==> final(self).wf(),
    {
        let password_count = self.meta.trash_meta.data.passwords.len();
        let file_count = self.meta.trash_meta.data.files.len();
        let folder_count = self.meta.trash_meta.data.folders.len();
        self.meta.trash_meta.data.passwords.clear();
        self.meta.trash_meta.data.files.clear();
        self.meta.trash_meta.data.folders.clear();
        (password_count, file_count, folder_count)
    }
}

/// Deleting an active file and restoring that same entry brings it back
/// to the active partition with the same item key, size, extension and
/// creation time, no longer recycled, and its bytes taken from where the
/// deletion put them. When the vault keeps names distinct and the restore
/// was planned right after the deletion, it keeps its own name.
pub proof fn lemma_delete_then_restore_file(
    d0: Database,
    d1: Database,
    d2: Database,
    i: int,
    trash_path: Seq<char>,
    j: int,
    new_name: Seq<char>,
    new_file_name: Seq<char>,
    target: Seq<char>,
)
    requires
        file_deleted(d0, d1, i, trash_path),
        j == d1.trash().files@.len() - 1,
        file_restored(d1, d2, j, new_name, new_file_name, target),
        is_first_free(d0.active().files@[i].name@, d0.active().files@[i].name@, Seq::empty(), d1.file_namespace(), new_name),
    ensures
        d2.active().files@.last().encrypted_item_key == d0.active().files@[i].encrypted_item_key,
        d2.active().files@.last().size == d0.active().files@[i].size,
        d2.active().files@.last().extension == d0.active().files@[i].extension,
        d2.active().files@.last().created_at == d0.active().files@[i].created_at,
        d2.active().files@.last().is_encrypted == d0.active().files@[i].is_encrypted,
        !d2.active().files@.last().is_recycled,
        d1.trash().files@[j].file_path@ == trash_path,
        d2.trash().files@ == d0.trash().files@,
        d0.wf() ==> d2.active().files@.last().name@ == d0.active().files@[i].name@,
{
    let e = d0.active().files@[i];
    let n = e.name@;
    assert(d1.trash().files@[j] == d1.trash().files@.last());
    assert(d2.trash().files@ =~= d0.trash().files@);
    if d0.wf() {
        let la = file_names(d0.active().files@);
        let lb = file_names(d0.encrypted().files@);
        assert(file_names(d0.active().files@ + d0.encrypted().files@) =~= la + lb);
        assert(file_names(d1.active().files@) =~= la.remove(i));
        assert(!d1.file_namespace().contains(n)) by {
            assert forall|k: int| 0 <= k < d1.file_namespace().len() implies d1.file_namespace()[k] != n by {
                let s = la + lb;
                assert(s[i] == n);
                if k < la.len() - 1 {
                    assert(d1.file_namespace()[k] == s[if k < i { k } else { k + 1 }]);
                } else {
                    assert(d1.file_namespace()[k] == s[k + 1]);
                }
            }
        }
        let c = choose|c: nat| #![trigger crate::naming::candidate(n, n, Seq::<char>::empty(), c)]
            new_name == crate::naming::candidate(n, n, Seq::<char>::empty(), c) && !d1.file_namespace().contains(new_name)
                && forall|k: nat| k < c ==> d1.file_namespace().contains(#[trigger] crate::naming::candidate(n, n, Seq::<char>::empty(), k));
        if c > 0 {
            assert(d1.file_namespace().contains(crate::naming::candidate(n, n, Seq::<char>::empty(), 0)));
        }
    }
}

/// Once the recycle bin is emptied no name is left in it, so restoring any
/// formerly trashed password or file fails with `NotFound`.
pub proof fn lemma_purge_is_final(after: Database, name: Seq<char>)
    requires
        after.trash().passwords@.len() == 0,
        after.trash().files@.len() == 0,
        after.trash().folders@.len() == 0,
    ensures
        !password_names(after.trash().passwords@).contains(name),
        !file_names(after.trash().files@).contains(name),
        !crate::partition::folder_names(after.trash().folders@).contains(name),
{
}

} // verus!
