//! The password (secret) lifecycle: add, change, encrypt, decrypt.
use vstd::prelude::*;
use vstd::string::StringExecFns;
use crate::data_encryption::opened_string;
use crate::enc_keys::{generate_item_key, opened_text, unwrap_item_key, wrap_item_key, KEY_LEN};
use crate::partition::{
    distinct_names, is_first_position, password_names, position_of_password, same_but_passwords,
};
use crate::primitives::AEAD_MAX_PLAINTEXT;
use crate::structs::{Database, PasswordEntry, VaultError};
use crate::time::now;

verus! {

/// The `updated_at` of an item that was never changed.
pub open spec fn never_updated() -> Seq<char> {
    seq!['0']
}

/// The stored key opens under `master_key` to an item key of the right length.
pub open spec fn holds_item_key(encrypted_item_key: Seq<char>, master_key: Seq<u8>) -> bool {
    match opened_text(encrypted_item_key, master_key) {
        Some(k) => k.len() == KEY_LEN,
        None => false,
    }
}

/// `e` is a new active password named `name` holding `value`.
pub open spec fn is_new_password(e: PasswordEntry, name: Seq<char>, value: Seq<char>, master_key: Seq<u8>) -> bool {
    &&& e.name@ == name
    &&& e.password@ == value
    &&& !e.is_encrypted
    &&& !e.is_recycled
    &&& e.updated_at@ == never_updated()
    &&& e.encrypted_item_key@.len() > 0
    &&& holds_item_key(e.encrypted_item_key@, master_key)
}

/// Encrypting `e` under `master_key` can succeed: its item key opens, has
/// the right length, and its value is not too long for the cipher.
pub open spec fn password_sealable(e: PasswordEntry, master_key: Seq<u8>) -> bool {
    &&& holds_item_key(e.encrypted_item_key@, master_key)
    &&& vstd::utf8::encode_utf8(e.password@).len() <= AEAD_MAX_PLAINTEXT
}

/// The plaintext that the encrypted password `e` opens to under `master_key`.
pub open spec fn password_plaintext(e: PasswordEntry, master_key: Seq<u8>) -> Option<Seq<char>> {
    match opened_text(e.encrypted_item_key@, master_key) {
        Some(k) => if k.len() == KEY_LEN {
            opened_string(e.password@, k)
        } else {
            None
        },
        None => None,
    }
}

/// `after` is `before` with its value replaced: same name, key and creation time.
pub open spec fn same_identity(before: PasswordEntry, after: PasswordEntry) -> bool {
    &&& after.name == before.name
    &&& after.encrypted_item_key == before.encrypted_item_key
    &&& after.created_at == before.created_at
    &&& after.is_recycled == before.is_recycled
}

/// `after` is the encrypted form of the active password `before`.
pub open spec fn is_sealed_password(before: PasswordEntry, after: PasswordEntry, master_key: Seq<u8>) -> bool {
    &&& same_identity(before, after)
    &&& after.is_encrypted
    &&& password_plaintext(after, master_key) == Some(before.password@)
    &&& after.password@ != before.password@
}

/// `after` is the decrypted form of the encrypted password `before`.
pub open spec fn is_opened_password(before: PasswordEntry, after: PasswordEntry, master_key: Seq<u8>) -> bool {
    &&& same_identity(before, after)
    &&& !after.is_encrypted
    &&& password_plaintext(before, master_key) == Some(after.password@)
}

/// Moving the element at `i` of `a` to the end of `b` keeps names distinct.
pub proof fn lemma_move_keeps_distinct(a: Seq<Seq<char>>, b: Seq<Seq<char>>, i: int)
    requires
        0 <= i < a.len(),
        distinct_names(a + b),
    ensures
        distinct_names(a.remove(i) + b.push(a[i])),
        distinct_names(b.push(a[i]) + a.remove(i)),
{
    let s = a + b;
    let t = a.remove(i) + b.push(a[i]);
    let la = a.len() as int;
    let f = |k: int| if k < i { k } else if k < la - 1 { k + 1 } else if k < t.len() - 1 { k + 1 } else { i };
    assert forall|k: int| 0 <= k < t.len() implies 0 <= #[trigger] f(k) < s.len() && t[k] == s[f(k)] by {}
    assert forall|k1: int, k2: int| 0 <= k1 < t.len() && 0 <= k2 < t.len() && k1 != k2 implies t[k1] != t[k2] by {
        assert(f(k1) != f(k2));
        assert(t[k1] == s[f(k1)] && t[k2] == s[f(k2)]);
    }
    let u = b.push(a[i]) + a.remove(i);
    let lb = b.len() as int;
    let g = |k: int| if k < lb { la + k } else if k == lb { i } else if k - lb - 1 < i { k - lb - 1 } else { k - lb };
    assert forall|k: int| 0 <= k < u.len() implies 0 <= #[trigger] g(k) < s.len() && u[k] == s[g(k)] by {}
    assert forall|k1: int, k2: int| 0 <= k1 < u.len() && 0 <= k2 < u.len() && k1 != k2 implies u[k1] != u[k2] by {
        assert(g(k1) != g(k2));
        assert(u[k1] == s[g(k1)] && u[k2] == s[g(k2)]);
    }
}

/// Appending a name that is not in use keeps names distinct.
pub proof fn lemma_push_fresh_keeps_distinct(a: Seq<Seq<char>>, b: Seq<Seq<char>>, n: Seq<char>)
    requires
        distinct_names(a + b),
        !(a + b).contains(n),
    ensures
        distinct_names(a.push(n) + b),
{
    let s = a + b;
    let t = a.push(n) + b;
    let la = a.len() as int;
    assert forall|k1: int, k2: int| 0 <= k1 < t.len() && 0 <= k2 < t.len() && k1 != k2 implies t[k1] != t[k2] by {
        if k1 == la {
            assert(t[k2] == s[if k2 < la { k2 } else { k2 - 1 }]);
        } else if k2 == la {
            assert(t[k1] == s[if k1 < la { k1 } else { k1 - 1 }]);
        } else {
            assert(t[k1] == s[if k1 < la { k1 } else { k1 - 1 }]);
            assert(t[k2] == s[if k2 < la { k2 } else { k2 - 1 }]);
        }
    }
}

impl Database {
    /// Adds an active password `name` holding `password`, with a fresh
    /// item key wrapped under the master key. Fails with `DuplicateName`
    /// when an active or encrypted password already has that name.
    pub fn add_password(&mut self, name: &str, password: &str) -> (r: Result<(), VaultError>)
        ensures
            r is Err <==> old(self).password_namespace().contains(name@),
            r is Err ==> r == Err::<(), VaultError>(VaultError::DuplicateName) && *final(self) == *old(self),
            r is Ok ==> {
                &&& same_but_passwords(*final(self), *old(self))
                &&& final(self).active().passwords@.drop_last() == old(self).active().passwords@
                &&& final(self).active().passwords@.len() == old(self).active().passwords@.len() + 1
                &&& is_new_password(final(self).active().passwords@.last(), name@, password@, old(self).master.key@)
                &&& final(self).encrypted().passwords == old(self).encrypted().passwords
                &&& final(self).trash().passwords == old(self).trash().passwords
            },
            old(self).wf() ==> final(self).wf(),
    {
        let ghost before = *self;
        let ghost la = password_names(self.active().passwords@);
        let ghost lb = password_names(self.encrypted().passwords@);
        if let Some(i) = position_of_password(&self.meta.decrypted_meta.data.passwords, name) {
            assert(self.password_namespace()[i as int] == name@);
            return Err(VaultError::DuplicateName);
        }
        if let Some(j) = position_of_password(&self.meta.encrypted_meta.data.passwords, name) {
            assert(self.password_namespace()[la.len() + j] == name@);
            return Err(VaultError::DuplicateName);
        }
        assert(!self.password_namespace().contains(name@)) by {
            assert forall|k: int| 0 <= k < self.password_namespace().len() implies self.password_namespace()[k] != name@ by {
                if k < la.len() {
                    assert(la[k] != name@);
                } else {
                    assert(lb[k - la.len()] != name@);
                }
            }
        }
        let item_key = generate_item_key();
        let encrypted_item_key = match wrap_item_key(item_key.as_slice(), self.master.key.as_slice()) {
            Some(w) => w,
            None => {
                assert(false);
                return Err(VaultError::Crypto);
            },
        };
        let entry = PasswordEntry {
            name: String::from_str(name),
            password: String::from_str(password),
            encrypted_item_key,
            is_encrypted: false,
            is_recycled: false,
            created_at: now(),
            updated_at: String::from_str("0"),
        };
        proof {
            reveal_strlit("0");
        }
        self.meta.decrypted_meta.data.passwords.push(entry);
        proof {
            assert(self.active().passwords@.drop_last() =~= before.active().passwords@);
            assert(password_names(self.active().passwords@) =~= la.push(name@));
            assert(password_names(before.active().passwords@ + before.encrypted().passwords@) =~= la + lb);
            assert(password_names(self.active().passwords@ + self.encrypted().passwords@) =~= la.push(name@) + lb);
            if before.wf() {
                lemma_push_fresh_keeps_distinct(la, lb, name@);
            }
            assert(same_but_passwords(*self, before));
            assert(self.active().passwords@.last().name@ == name@);
            assert(self.active().passwords@.last().updated_at@ == never_updated());
            assert(holds_item_key(self.active().passwords@.last().encrypted_item_key@, before.master.key@));
        }
        Ok(())
    }

    /// Replaces the value of the active password `name`. Fails with
    /// `NotFound` when no active password has that name (an encrypted one
    /// must be decrypted first) and with `State` when the value would not
    /// change.
    pub fn change_password(&mut self, name: &str, new_password: &str) -> (r: Result<(), VaultError>)
        ensures
            !password_names(old(self).active().passwords@).contains(name@) ==> r == Err::<(), VaultError>(VaultError::NotFound),
            r is Err ==> *final(self) == *old(self),
            forall|i: int| is_first_position(password_names(old(self).active().passwords@), name@, i) ==> {
                &&& (r is Err <==> old(self).active().passwords@[i].password@ == new_password@)
                &&& (r is Err ==> r == Err::<(), VaultError>(VaultError::State))
                &&& (r is Ok ==> {
                    &&& same_but_passwords(*final(self), *old(self))
                    &&& final(self).active().passwords@ == old(self).active().passwords@.update(i, final(self).active().passwords@[i])
                    &&& same_identity(old(self).active().passwords@[i], final(self).active().passwords@[i])
                    &&& final(self).active().passwords@[i].is_encrypted == old(self).active().passwords@[i].is_encrypted
                    &&& final(self).active().passwords@[i].password@ == new_password@
                    &&& final(self).encrypted().passwords == old(self).encrypted().passwords
                    &&& final(self).trash().passwords == old(self).trash().passwords
                })
            },
            old(self).wf() ==> final(self).wf(),
    {
        let ghost before = *self;
        let pos = match position_of_password(&self.meta.decrypted_meta.data.passwords, name) {
            Some(p) => p,
            None => return Err(VaultError::NotFound),
        };
        let target = String::from_str(new_password);
        if self.meta.decrypted_meta.data.passwords[pos].password == target {
            return Err(VaultError::State);
        }
        let mut entry = self.meta.decrypted_meta.data.passwords.remove(pos);
        entry.password = target;
        entry.updated_at = now();
        self.meta.decrypted_meta.data.passwords.insert(pos, entry);
        proof {
            assert(self.active().passwords@ =~= before.active().passwords@.update(pos as int, self.active().passwords@[pos as int]));
            assert(password_names(self.active().passwords@) =~= password_names(before.active().passwords@));
            assert(password_names(self.active().passwords@ + self.encrypted().passwords@) =~= password_names(before.active().passwords@ + before.encrypted().passwords@));
        }
        Ok(())
    }

    /// Moves the active password `name` to the encrypted partition, its
    /// value sealed under its own item key. Fails with `NotFound` when no
    /// active password has that name, `State` when it is already encrypted,
    /// and `Crypto` when its item key does not open; nothing changes then.
    pub fn encrypt_password(&mut self, name: &str) -> (r: Result<(), VaultError>)
        ensures
            !password_names(old(self).active().passwords@).contains(name@) ==> r == Err::<(), VaultError>(VaultError::NotFound),
            r is Err ==> *final(self) == *old(self),
            forall|i: int| #![trigger old(self).active().passwords@[i]] is_first_position(password_names(old(self).active().passwords@), name@, i) ==> {
                let e = old(self).active().passwords@[i];
                &&& (e.is_encrypted ==> r == Err::<(), VaultError>(VaultError::State))
                &&& (!e.is_encrypted && !password_sealable(e, old(self).master.key@) ==> r == Err::<(), VaultError>(VaultError::Crypto))
                &&& (!e.is_encrypted && password_sealable(e, old(self).master.key@) ==> r is Ok)
                &&& (r is Ok ==> {
                    &&& same_but_passwords(*final(self), *old(self))
                    &&& final(self).active().passwords@ == old(self).active().passwords@.remove(i)
                    &&& final(self).encrypted().passwords@.drop_last() == old(self).encrypted().passwords@
                    &&& final(self).encrypted().passwords@.len() == old(self).encrypted().passwords@.len() + 1
                    &&& is_sealed_password(e, final(self).encrypted().passwords@.last(), old(self).master.key@)
                    &&& final(self).trash().passwords == old(self).trash().passwords
                })
            },
            old(self).wf() ==> final(self).wf(),
    {
        let ghost before = *self;
        let pos = match position_of_password(&self.meta.decrypted_meta.data.passwords, name) {
            Some(p) => p,
            None => return Err(VaultError::NotFound),
        };
        if self.meta.decrypted_meta.data.passwords[pos].is_encrypted {
            return Err(VaultError::State);
        }
        let key = match unwrap_item_key(&self.meta.decrypted_meta.data.passwords[pos].encrypted_item_key, self.master.key.as_slice()) {
            Some(k) => k,
            None => return Err(VaultError::Crypto),
        };
        if key.len() != KEY_LEN {
            return Err(VaultError::Crypto);
        }
        let sealed = match self.encrypt_string(&self.meta.decrypted_meta.data.passwords[pos].password, key.as_slice()) {
            Some(c) => c,
            None => return Err(VaultError::Crypto),
        };
        let mut entry = self.meta.decrypted_meta.data.passwords.remove(pos);
        entry.is_encrypted = true;
        entry.password = sealed;
        entry.updated_at = now();
        self.meta.encrypted_meta.data.passwords.push(entry);
        proof {
            assert(self.encrypted().passwords@.drop_last() =~= before.encrypted().passwords@);
            let la = password_names(before.active().passwords@);
            let lb = password_names(before.encrypted().passwords@);
            assert(password_names(before.active().passwords@ + before.encrypted().passwords@) =~= la + lb);
            assert(password_names(self.active().passwords@) =~= la.remove(pos as int));
            assert(password_names(self.encrypted().passwords@) =~= lb.push(la[pos as int]));
            assert(password_names(self.active().passwords@ + self.encrypted().passwords@) =~= la.remove(pos as int) + lb.push(la[pos as int]));
            if before.wf() {
                lemma_move_keeps_distinct(la, lb, pos as int);
            }
        }
        Ok(())
    }

    /// Moves the encrypted password `name` back to the active partition,
    /// its value opened again. Fails with `NotFound` when no encrypted
    /// password has that name, `State` when it is not marked encrypted, and
    /// `Crypto` when its key or value does not open; nothing changes then.
    pub fn decrypt_password(&mut self, name: &str) -> (r: Result<(), VaultError>)
        ensures
            !password_names(old(self).encrypted().passwords@).contains(name@) ==> r == Err::<(), VaultError>(VaultError::NotFound),
            r is Err ==> *final(self) == *old(self),
            forall|i: int| #![trigger old(self).encrypted().passwords@[i]] is_first_position(password_names(old(self).encrypted().passwords@), name@, i) ==> {
                let e = old(self).encrypted().passwords@[i];
                &&& (!e.is_encrypted ==> r == Err::<(), VaultError>(VaultError::State))
                &&& (e.is_encrypted && password_plaintext(e, old(self).master.key@) is None ==> r == Err::<(), VaultError>(VaultError::Crypto))
                &&& (e.is_encrypted && password_plaintext(e, old(self).master.key@) is Some ==> r is Ok)
                &&& (r is Ok ==> {
                    &&& same_but_passwords(*final(self), *old(self))
                    &&& final(self).encrypted().passwords@ == old(self).encrypted().passwords@.remove(i)
                    &&& final(self).active().passwords@.drop_last() == old(self).active().passwords@
                    &&& final(self).active().passwords@.len() == old(self).active().passwords@.len() + 1
                    &&& is_opened_password(e, final(self).active().passwords@.last(), old(self).master.key@)
                    &&& final(self).trash().passwords == old(self).trash().passwords
                })
            },
            old(self).wf() ==> final(self).wf(),
    {
        let ghost before = *self;
        let pos = match position_of_password(&self.meta.encrypted_meta.data.passwords, name) {
            Some(p) => p,
            None => return Err(VaultError::NotFound),
        };
        if !self.meta.encrypted_meta.data.passwords[pos].is_encrypted {
            return Err(VaultError::State);
        }
        let key = match unwrap_item_key(&self.meta.encrypted_meta.data.passwords[pos].encrypted_item_key, self.master.key.as_slice()) {
            Some(k) => k,
            None => return Err(VaultError::Crypto),
        };
        if key.len() != KEY_LEN {
            return Err(VaultError::Crypto);
        }
        let opened = match self.decrypt_string(&self.meta.encrypted_meta.data.passwords[pos].password, key.as_slice()) {
            Some(p) => p,
            None => return Err(VaultError::Crypto),
        };
        let mut entry = self.meta.encrypted_meta.data.passwords.remove(pos);
        entry.is_encrypted = false;
        entry.password = opened;
        entry.updated_at = now();
        self.meta.decrypted_meta.data.passwords.push(entry);
        proof {
            assert(self.active().passwords@.drop_last() =~= before.active().passwords@);
            let la = password_names(before.active().passwords@);
            let lb = password_names(before.encrypted().passwords@);
            assert(password_names(before.active().passwords@ + before.encrypted().passwords@) =~= la + lb);
            assert(password_names(self.encrypted().passwords@) =~= lb.remove(pos as int));
            assert(password_names(self.active().passwords@) =~= la.push(lb[pos as int]));
            assert(password_names(self.active().passwords@ + self.encrypted().passwords@) =~= la.push(lb[pos as int]) + lb.remove(pos as int));
            if before.wf() {
                assert(password_names(before.encrypted().passwords@ + before.active().passwords@) =~= lb + la);
                lemma_distinct_swap(la, lb);
                lemma_move_keeps_distinct(lb, la, pos as int);
            }
        }
        Ok(())
    }
}

/// Bulk encryption moves this active password.
pub open spec fn will_seal(e: PasswordEntry, master_key: Seq<u8>) -> bool {
    !e.is_encrypted && password_sealable(e, master_key)
}

/// Bulk decryption moves this encrypted password.
pub open spec fn will_open(e: PasswordEntry, master_key: Seq<u8>) -> bool {
    e.is_encrypted && password_plaintext(e, master_key) is Some
}

impl Database {
    fn sealed_value(&self, e: &PasswordEntry) -> (r: Option<String>)
        ensures
            r is Some <==> password_sealable(*e, self.master.key@),
            r matches Some(c) ==> match opened_text(e.encrypted_item_key@, self.master.key@) {
                Some(k) => opened_string(c@, k) == Some(e.password@),
                None => false,
            },
            r matches Some(c) ==> c@ != e.password@,
    {
        let key = match unwrap_item_key(&e.encrypted_item_key, self.master.key.as_slice()) {
            Some(k) => k,
            None => return None,
        };
        if key.len() != KEY_LEN {
            return None;
        }
        self.encrypt_string(&e.password, key.as_slice())
    }

    fn opened_value(&self, e: &PasswordEntry) -> (r: Option<String>)
        ensures
            match r {
                Some(p) => password_plaintext(*e, self.master.key@) == Some(p@),
                None => password_plaintext(*e, self.master.key@) is None,
            },
    {
        let key = match unwrap_item_key(&e.encrypted_item_key, self.master.key.as_slice()) {
            Some(k) => k,
            None => return None,
        };
        if key.len() != KEY_LEN {
            return None;
        }
        self.decrypt_string(&e.password, key.as_slice())
    }

    /// Encrypts every active password that is not encrypted yet, in order;
    /// one whose key does not open stays active. Returns whether none
    /// failed.
    pub fn encrypt_all_passwords(&mut self) -> (r: bool)
        ensures
            r == forall|k: int| 0 <= k < old(self).active().passwords@.len() ==> (!(#[trigger] old(self).active().passwords@[k]).is_encrypted ==> password_sealable(old(self).active().passwords@[k], old(self).master.key@)),
            same_but_passwords(*final(self), *old(self)),
            final(self).trash().passwords == old(self).trash().passwords,
            final(self).active().passwords@ == kept_by_sealing(old(self).active().passwords@, old(self).master.key@),
            final(self).encrypted().passwords@.subrange(0, old(self).encrypted().passwords@.len() as int) == old(self).encrypted().passwords@,
            final(self).encrypted().passwords@.len() == old(self).encrypted().passwords@.len() + moved_by_sealing(old(self).active().passwords@, old(self).master.key@).len(),
            forall|k: int| 0 <= k < moved_by_sealing(old(self).active().passwords@, old(self).master.key@).len() ==> is_sealed_password(
                #[trigger] moved_by_sealing(old(self).active().passwords@, old(self).master.key@)[k],
                final(self).encrypted().passwords@[old(self).encrypted().passwords@.len() + k],
                old(self).master.key@,
            ),
    {
        let ghost before = *self;
        let ghost master = self.master.key@;
        let ghost enc0 = self.encrypted().passwords@;
        let mut rest: Vec<PasswordEntry> = Vec::new();
        std::mem::swap(&mut rest, &mut self.meta.decrypted_meta.data.passwords);
        let ghost all = rest@;
        let mut ok = true;
        let mut k: usize = 0;
        let n = rest.len();
        proof {
            lemma_sealing_empty(master);
            assert(all.subrange(0, 0) =~= Seq::<PasswordEntry>::empty());
            assert(self.encrypted().passwords@.subrange(0, enc0.len() as int) =~= enc0);
        }
        while k < n
            invariant
                n == all.len(),
                0 <= k <= n,
                rest@ == all.subrange(k as int, n as int),
                all == before.active().passwords@,
                master == before.master.key@,
                self.master == before.master,
                self.directories == before.directories,
                self.config == before.config,
                self.meta.nested_db_meta == before.meta.nested_db_meta,
                self.meta.decrypted_meta.file_path == before.meta.decrypted_meta.file_path,
                self.meta.encrypted_meta.file_path == before.meta.encrypted_meta.file_path,
                self.meta.trash_meta == before.meta.trash_meta,
                self.active().files == before.active().files && self.active().folders == before.active().folders,
                self.encrypted().files == before.encrypted().files && self.encrypted().folders == before.encrypted().folders,
                self.active().passwords@ == kept_by_sealing(all.subrange(0, k as int), master),
                self.encrypted().passwords@.len() == enc0.len() + moved_by_sealing(all.subrange(0, k as int), master).len(),
                self.encrypted().passwords@.subrange(0, enc0.len() as int) == enc0,
                forall|j: int| 0 <= j < moved_by_sealing(all.subrange(0, k as int), master).len() ==> is_sealed_password(
                    #[trigger] moved_by_sealing(all.subrange(0, k as int), master)[j],
                    self.encrypted().passwords@[enc0.len() + j],
                    master,
                ),
                ok == forall|j: int| 0 <= j < k ==> (!(#[trigger] all[j]).is_encrypted ==> password_sealable(all[j], master)),
            decreases n - k,
        {
            let ghost e0 = all[k as int];
            let ghost pre = all.subrange(0, k as int);
            let ghost pre1 = all.subrange(0, k + 1);
            proof {
                assert(pre1 =~= pre.push(e0));
                lemma_sealing_step(pre, e0, master);
            }
            let mut e = rest.remove(0);
            assert(rest@ =~= all.subrange(k + 1, n as int));
            if e.is_encrypted {
                self.meta.decrypted_meta.data.passwords.push(e);
            } else {
                match self.sealed_value(&e) {
                    Some(c) => {
                        e.password = c;
                        e.is_encrypted = true;
                        e.updated_at = now();
                        let ghost prev = self.encrypted().passwords@;
                        self.meta.encrypted_meta.data.passwords.push(e);
                        proof {
                            assert(self.encrypted().passwords@.subrange(0, enc0.len() as int) =~= prev.subrange(0, enc0.len() as int));
                            assert forall|j: int| 0 <= j < moved_by_sealing(pre1, master).len() implies is_sealed_password(
                                #[trigger] moved_by_sealing(pre1, master)[j],
                                self.encrypted().passwords@[enc0.len() + j],
                                master,
                            ) by {
                                if j < moved_by_sealing(pre, master).len() {
                                    assert(moved_by_sealing(pre1, master)[j] == moved_by_sealing(pre, master)[j]);
                                    assert(self.encrypted().passwords@[enc0.len() + j] == prev[enc0.len() + j]);
                                }
                            }
                        }
                    },
                    None => {
                        ok = false;
                        self.meta.decrypted_meta.data.passwords.push(e);
                    },
                }
            }
            k = k + 1;
        }
        proof {
            assert(all.subrange(0, n as int) =~= all);
        }
        ok
    }
    /// Decrypts every encrypted password, in order; one whose key or value
    /// does not open stays encrypted. Returns whether none failed.
    pub fn decrypt_all_passwords(&mut self) -> (r: bool)
        ensures
            r == forall|k: int| 0 <= k < old(self).encrypted().passwords@.len() ==> ((#[trigger] old(self).encrypted().passwords@[k]).is_encrypted ==> password_plaintext(old(self).encrypted().passwords@[k], old(self).master.key@) is Some),
            same_but_passwords(*final(self), *old(self)),
            final(self).trash().passwords == old(self).trash().passwords,
            final(self).encrypted().passwords@ == kept_by_opening(old(self).encrypted().passwords@, old(self).master.key@),
            final(self).active().passwords@.subrange(0, old(self).active().passwords@.len() as int) == old(self).active().passwords@,
            final(self).active().passwords@.len() == old(self).active().passwords@.len() + moved_by_opening(old(self).encrypted().passwords@, old(self).master.key@).len(),
            forall|k: int| 0 <= k < moved_by_opening(old(self).encrypted().passwords@, old(self).master.key@).len() ==> is_opened_password(
                #[trigger] moved_by_opening(old(self).encrypted().passwords@, old(self).master.key@)[k],
                final(self).active().passwords@[old(self).active().passwords@.len() + k],
                old(self).master.key@,
            ),
    {
        let ghost before = *self;
        let ghost master = self.master.key@;
        let ghost enc0 = self.active().passwords@;
        let mut rest: Vec<PasswordEntry> = Vec::new();
        std::mem::swap(&mut rest, &mut self.meta.encrypted_meta.data.passwords);
        let ghost all = rest@;
        let mut ok = true;
        let mut k: usize = 0;
        let n = rest.len();
        proof {
            lemma_opening_empty(master);
            assert(all.subrange(0, 0) =~= Seq::<PasswordEntry>::empty());
            assert(self.active().passwords@.subrange(0, enc0.len() as int) =~= enc0);
        }
        while k < n
            invariant
                n == all.len(),
                0 <= k <= n,
                rest@ == all.subrange(k as int, n as int),
                all == before.encrypted().passwords@,
                master == before.master.key@,
                self.master == before.master,
                self.directories == before.directories,
                self.config == before.config,
                self.meta.nested_db_meta == before.meta.nested_db_meta,
                self.meta.decrypted_meta.file_path == before.meta.decrypted_meta.file_path,
                self.meta.encrypted_meta.file_path == before.meta.encrypted_meta.file_path,
                self.meta.trash_meta == before.meta.trash_meta,
                self.active().files == before.active().files && self.active().folders == before.active().folders,
                self.encrypted().files == before.encrypted().files && self.encrypted().folders == before.encrypted().folders,
                self.encrypted().passwords@ == kept_by_opening(all.subrange(0, k as int), master),
                self.active().passwords@.len() == enc0.len() + moved_by_opening(all.subrange(0, k as int), master).len(),
                self.active().passwords@.subrange(0, enc0.len() as int) == enc0,
                forall|j: int| 0 <= j < moved_by_opening(all.subrange(0, k as int), master).len() ==> is_opened_password(
                    #[trigger] moved_by_opening(all.subrange(0, k as int), master)[j],
                    self.active().passwords@[enc0.len() + j],
                    master,
                ),
                ok == forall|j: int| 0 <= j < k ==> ((#[trigger] all[j]).is_encrypted ==> password_plaintext(all[j], master) is Some),
            decreases n - k,
        {
            let ghost e0 = all[k as int];
            let ghost pre = all.subrange(0, k as int);
            let ghost pre1 = all.subrange(0, k + 1);
            proof {
                assert(pre1 =~= pre.push(e0));
                lemma_opening_step(pre, e0, master);
            }
            let mut e = rest.remove(0);
            assert(rest@ =~= all.subrange(k + 1, n as int));
            if !e.is_encrypted {
                self.meta.encrypted_meta.data.passwords.push(e);
            } else {
                match self.opened_value(&e) {
                    Some(p) => {
                        e.password = p;
                        e.is_encrypted = false;
                        e.updated_at = now();
                        let ghost prev = self.active().passwords@;
                        self.meta.decrypted_meta.data.passwords.push(e);
                        proof {
                            assert(self.active().passwords@.subrange(0, enc0.len() as int) =~= prev.subrange(0, enc0.len() as int));
                            assert forall|j: int| 0 <= j < moved_by_opening(pre1, master).len() implies is_opened_password(
                                #[trigger] moved_by_opening(pre1, master)[j],
                                self.active().passwords@[enc0.len() + j],
                                master,
                            ) by {
                                if j < moved_by_opening(pre, master).len() {
                                    assert(moved_by_opening(pre1, master)[j] == moved_by_opening(pre, master)[j]);
                                    assert(self.active().passwords@[enc0.len() + j] == prev[enc0.len() + j]);
                                }
                            }
                        }
                    },
                    None => {
                        ok = false;
                        self.meta.encrypted_meta.data.passwords.push(e);
                    },
                }
            }
            k = k + 1;
        }
        proof {
            assert(all.subrange(0, n as int) =~= all);
        }
        ok
    }
}

/// The active passwords that bulk encryption leaves in place, in order.
pub open spec fn kept_by_sealing(s: Seq<PasswordEntry>, master_key: Seq<u8>) -> Seq<PasswordEntry> {
    s.filter(|e: PasswordEntry| !will_seal(e, master_key))
}

/// The active passwords that bulk encryption moves, in order.
pub open spec fn moved_by_sealing(s: Seq<PasswordEntry>, master_key: Seq<u8>) -> Seq<PasswordEntry> {
    s.filter(|e: PasswordEntry| will_seal(e, master_key))
}

/// The encrypted passwords that bulk decryption leaves in place, in order.
pub open spec fn kept_by_opening(s: Seq<PasswordEntry>, master_key: Seq<u8>) -> Seq<PasswordEntry> {
    s.filter(|e: PasswordEntry| !will_open(e, master_key))
}

/// The encrypted passwords that bulk decryption moves, in order.
pub open spec fn moved_by_opening(s: Seq<PasswordEntry>, master_key: Seq<u8>) -> Seq<PasswordEntry> {
    s.filter(|e: PasswordEntry| will_open(e, master_key))
}

proof fn lemma_opening_empty(master_key: Seq<u8>)
    ensures
        kept_by_opening(Seq::empty(), master_key) == Seq::<PasswordEntry>::empty(),
        moved_by_opening(Seq::empty(), master_key) == Seq::<PasswordEntry>::empty(),
{
    reveal(Seq::filter);
}

proof fn lemma_opening_step(s: Seq<PasswordEntry>, e: PasswordEntry, master_key: Seq<u8>)
    ensures
        kept_by_opening(s.push(e), master_key) == if will_open(e, master_key) {
            kept_by_opening(s, master_key)
        } else {
            kept_by_opening(s, master_key).push(e)
        },
        moved_by_opening(s.push(e), master_key) == if will_open(e, master_key) {
            moved_by_opening(s, master_key).push(e)
        } else {
            moved_by_opening(s, master_key)
        },
{
    reveal(Seq::filter);
    assert(s.push(e).drop_last() =~= s);
    assert(s.push(e).last() == e);
}

proof fn lemma_sealing_empty(master_key: Seq<u8>)
    ensures
        kept_by_sealing(Seq::empty(), master_key) == Seq::<PasswordEntry>::empty(),
        moved_by_sealing(Seq::empty(), master_key) == Seq::<PasswordEntry>::empty(),
{
    reveal(Seq::filter);
}

proof fn lemma_sealing_step(s: Seq<PasswordEntry>, e: PasswordEntry, master_key: Seq<u8>)
    ensures
        kept_by_sealing(s.push(e), master_key) == if will_seal(e, master_key) {
            kept_by_sealing(s, master_key)
        } else {
            kept_by_sealing(s, master_key).push(e)
        },
        moved_by_sealing(s.push(e), master_key) == if will_seal(e, master_key) {
            moved_by_sealing(s, master_key).push(e)
        } else {
            moved_by_sealing(s, master_key)
        },
{
    reveal(Seq::filter);
    assert(s.push(e).drop_last() =~= s);
    assert(s.push(e).last() == e);
}

/// Distinctness does not depend on which half comes first.
pub proof fn lemma_distinct_swap(a: Seq<Seq<char>>, b: Seq<Seq<char>>)
    requires
        distinct_names(a + b),
    ensures
        distinct_names(b + a),
{
    let s = a + b;
    let t = b + a;
    let la = a.len() as int;
    let lb = b.len() as int;
    assert forall|k1: int, k2: int| 0 <= k1 < t.len() && 0 <= k2 < t.len() && k1 != k2 implies t[k1] != t[k2] by {
        let m1 = if k1 < lb { la + k1 } else { k1 - lb };
        let m2 = if k2 < lb { la + k2 } else { k2 - lb };
        assert(t[k1] == s[m1]);
        assert(t[k2] == s[m2]);
    }
}

} // verus!
