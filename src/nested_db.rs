//! The registry of child vaults. A record holds a child's name and where
//! it lives, never its password or key: a child opens only by its own
//! configuration.
use vstd::prelude::*;
use vstd::string::StringExecFns;
use crate::files::joined;
use crate::partition::is_first_position;
use crate::structs::{Database, DatabaseArguments, NestedDatabaseRecord, VaultError};

verus! {

/// The names of the child records.
pub open spec fn record_names(s: Seq<NestedDatabaseRecord>) -> Seq<Seq<char>> {
    s.map_values(|r: NestedDatabaseRecord| r.db_name@)
}

/// The child records of a vault.
pub open spec fn children(db: Database) -> Seq<NestedDatabaseRecord> {
    db.meta.nested_db_meta.data@
}

fn position_of_record(v: &Vec<NestedDatabaseRecord>, name: &str) -> (r: Option<usize>)
    ensures
        crate::partition::lookup_result(record_names(v@), name@, r),
{
    let target = String::from_str(name);
    let mut i: usize = 0;
    while i < v.len()
        invariant
            0 <= i <= v@.len(),
            target@ == name@,
            forall|j: int| 0 <= j < i ==> v@[j].db_name@ != name@,
        decreases v@.len() - i,
    {
        if v[i].db_name == target {
            return Some(i);
        }
        i = i + 1;
    }
    assert forall|j: int| 0 <= j < record_names(v@).len() implies record_names(v@)[j] != name@ by {
        assert(v@[j].db_name@ != name@);
    }
    None
}

/// Whether a child vault named `db_name` is registered.
pub fn nested_database_exists(db: &Database, db_name: &str) -> (r: bool)
    ensures
        r == record_names(children(*db)).contains(db_name@),
{
    match position_of_record(&db.meta.nested_db_meta.data, db_name) {
        Some(i) => {
            assert(record_names(children(*db))[i as int] == db_name@);
            true
        },
        None => false,
    }
}

impl Database {
    /// The arguments that create the child vault of `args` inside this
    /// vault, at `<nested dir>/<name>`, with its own password. Fails with
    /// `DuplicateName` when a child of that name exists.
    pub fn plan_nested_database(&self, args: &DatabaseArguments) -> (r: Result<DatabaseArguments, VaultError>)
        ensures
            r is Err <==> record_names(children(*self)).contains(args.db_name@),
            r is Err ==> r == Err::<DatabaseArguments, VaultError>(VaultError::DuplicateName),
            r matches Ok(c) ==> {
                &&& c.db_name == args.db_name && c.owner == args.owner && c.description == args.description
                &&& c.master_password == args.master_password
                &&& c.is_nested
                &&& c.root_directory@ == joined(self.directories.nested_db_dir@, args.db_name@)
            },
    {
        if nested_database_exists(self, args.db_name.as_str()) {
            return Err(VaultError::DuplicateName);
        }
        let mut root = String::from_str(self.directories.nested_db_dir.as_str());
        proof {
            reveal_strlit("/");
        }
        root.append("/");
        root.append(args.db_name.as_str());
        assert(root@ =~= joined(self.directories.nested_db_dir@, args.db_name@));
        Ok(DatabaseArguments {
            db_name: args.db_name.clone(),
            owner: args.owner.clone(),
            description: args.description.clone(),
            master_password: args.master_password.clone(),
            is_nested: true,
            root_directory: root,
        })
    }

    /// Registers a child vault once it has been created at
    /// `child.root_directory`. Fails with `DuplicateName` when a child of
    /// that name exists.
    pub fn create_nested_database(&mut self, child: &DatabaseArguments) -> (r: Result<(), VaultError>)
        ensures
            r is Err <==> record_names(children(*old(self))).contains(child.db_name@),
            r is Err ==> r == Err::<(), VaultError>(VaultError::DuplicateName) && *final(self) == *old(self),
            r is Ok ==> {
                &&& children(*final(self)).drop_last() == children(*old(self))
                &&& children(*final(self)).len() == children(*old(self)).len() + 1
                &&& children(*final(self)).last().db_name == child.db_name
                &&& children(*final(self)).last().db_path == child.root_directory
                &&& final(self).master == old(self).master && final(self).config == old(self).config
                &&& final(self).directories == old(self).directories
                &&& final(self).meta.decrypted_meta == old(self).meta.decrypted_meta
                &&& final(self).meta.encrypted_meta == old(self).meta.encrypted_meta
                &&& final(self).meta.trash_meta == old(self).meta.trash_meta
            },
    {
        if nested_database_exists(self, child.db_name.as_str()) {
            return Err(VaultError::DuplicateName);
        }
        self.meta.nested_db_meta.data.push(NestedDatabaseRecord {
            db_name: child.db_name.clone(),
            db_path: child.root_directory.clone(),
        });
        assert(children(*self).drop_last() =~= children(*old(self)));
        Ok(())
    }

    /// The arguments that open the child vault `db_name` with
    /// `db_password`; whether that password is right is decided by the
    /// child's own configuration when it is opened. Fails with `NotFound`
    /// when no child has that name.
    pub fn login_nested_database(&self, db_name: &str, db_password: &str) -> (r: Result<DatabaseArguments, VaultError>)
        ensures
            r is Err <==> !record_names(children(*self)).contains(db_name@),
            r is Err ==> r == Err::<DatabaseArguments, VaultError>(VaultError::NotFound),
            forall|i: int| #![trigger children(*self)[i]] is_first_position(record_names(children(*self)), db_name@, i) ==> (r matches Ok(c) ==> {
                &&& c.db_name@ == db_name@
                &&& c.master_password@ == db_password@
                &&& c.is_nested
                &&& c.root_directory == children(*self)[i].db_path
                &&& c.owner@.len() == 0 && c.description@.len() == 0
            }),
    {
        let pos = match position_of_record(&self.meta.nested_db_meta.data, db_name) {
            Some(p) => p,
            None => return Err(VaultError::NotFound),
        };
        Ok(DatabaseArguments {
            db_name: String::from_str(db_name),
            owner: String::new(),
            description: String::new(),
            master_password: String::from_str(db_password),
            is_nested: true,
            root_directory: self.meta.nested_db_meta.data[pos].db_path.clone(),
        })
    }

    /// Drops the record of the child vault `db_name` and hands it back, so
    /// that its tree can be removed. The caller first proves the child's
    /// password by opening it. Fails with `NotFound` when no child has
    /// that name.
    pub fn delete_nested_database(&mut self, db_name: &str) -> (r: Result<NestedDatabaseRecord, VaultError>)
        ensures
            r is Err <==> !record_names(children(*old(self))).contains(db_name@),
            r is Err ==> r == Err::<NestedDatabaseRecord, VaultError>(VaultError::NotFound) && *final(self) == *old(self),
            forall|i: int| #![trigger children(*old(self))[i]] is_first_position(record_names(children(*old(self))), db_name@, i) ==> (r matches Ok(rec) ==> {
                &&& rec == children(*old(self))[i]
                &&& children(*final(self)) == children(*old(self)).remove(i)
                &&& final(self).master == old(self).master && final(self).config == old(self).config
                &&& final(self).meta.decrypted_meta == old(self).meta.decrypted_meta
                &&& final(self).meta.encrypted_meta == old(self).meta.encrypted_meta
                &&& final(self).meta.trash_meta == old(self).meta.trash_meta
            }),
    {
        let pos = match position_of_record(&self.meta.nested_db_meta.data, db_name) {
            Some(p) => p,
            None => return Err(VaultError::NotFound),
        };
        Ok(self.meta.nested_db_meta.data.remove(pos))
    }
}

/// A child vault opens by its own stored configuration alone (see
/// `Database::with_dir`); the parent keeps only its name and location. A
/// rotation of the parent keeps the registry, so every child record, and
/// with it the configuration that decides whether a password opens the
/// child, stays as it was.
pub proof fn lemma_parent_rotation_keeps_children(parent_before: Database, parent_after: Database)
    requires
        parent_after.meta.nested_db_meta == parent_before.meta.nested_db_meta,
        parent_after.directories == parent_before.directories,
    ensures
        children(parent_after) == children(parent_before),
        forall|i: int| 0 <= i < children(parent_before).len() ==> #[trigger] children(parent_after)[i].db_path == children(parent_before)[i].db_path,
{
}

} // verus!
