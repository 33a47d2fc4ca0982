use vstd::prelude::*;
use crate::hash::base32_text;
use crate::lock_file::LockFile;
use crate::text::{chars_of, push_char};

verus! {

/// A content-addressed store: one folder where each resource lies under
/// the base32 text of its hash.
#[derive(Debug)]
pub struct ResourceStore {
    pub folder: String,
}

/// A folder path joined with an entry name.
pub open spec fn path_join(folder: Seq<char>, name: Seq<char>) -> Seq<char> {
    if folder.len() == 0 {
        name
    } else if folder.last() == '/' {
        folder + name
    } else {
        folder + "/"@ + name
    }
}

pub fn join_name(folder: &String, name: &String) -> (r: String)
    ensures
        r@ == path_join(folder@, name@),
{
    let c = chars_of(folder.as_str());
    if c.len() == 0 {
        return name.clone();
    }
    let mut s = folder.clone();
    if c[c.len() - 1] != '/' {
        push_char(&mut s, '/');
        proof {
            reveal_strlit("/");
            assert(s@ =~= folder@ + "/"@);
        }
    }
    s.concat(name.as_str())
}

impl ResourceStore {
    /// A store in a folder.
    pub fn new(folder: String) -> (r: ResourceStore)
        ensures
            r.folder@ == folder@,
    {
        ResourceStore { folder }
    }

    /// The store's folder.
    pub fn folder(&self) -> (r: &String)
        ensures
            r@ == self.folder@,
    {
        &self.folder
    }

    /// Where the resource with a hash lies.
    pub fn get_path(&self, hash: &crate::hash::Hash) -> (r: String)
        ensures
            r@ == path_join(self.folder@, base32_text(hash.0)),
    {
        let name = hash.to_base32();
        join_name(&self.folder, &name)
    }

    /// Where a resource being written under a (placeholder) hash lies
    /// before it is moved to its final path.
    pub fn get_temp_path(&self, hash: &crate::hash::Hash) -> (r: String)
        ensures
            r@ == path_join(self.folder@, base32_text(hash.0) + ".tmp"@),
    {
        let name = hash.to_base32().concat(".tmp");
        join_name(&self.folder, &name)
    }

    /// Whether a lock file holds in the store, given what the store has
    /// for each locked resource in order: the recomputed hash of the entry
    /// at its path, or none when nothing is there. It holds iff every
    /// resource is present with the hash the lock records.
    pub fn validate(&self, lock_file: &LockFile, found: &Vec<Option<crate::hash::Hash>>) -> (r: bool)
        requires
            found@.len() == lock_file.resources@.len(),
        ensures
            r == forall|i: int| 0 <= i < found@.len() ==> #[trigger] found@[i] == Some(lock_file.resources@[i].lock.hash),
    {
        let mut i: usize = 0;
        while i < found.len()
            invariant
                found@.len() == lock_file.resources@.len(),
                i <= found@.len(),
                forall|j: int| 0 <= j < i ==> #[trigger] found@[j] == Some(lock_file.resources@[j].lock.hash),
            decreases found.len() - i,
        {
            match found[i] {
                Some(h) => {
                    if h != lock_file.resources[i].lock.hash {
                        return false;
                    }
                },
                None => {
                    return false;
                },
            }
            i += 1;
        }
        true
    }
}

} // verus!
