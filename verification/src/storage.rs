use vstd::prelude::*;

use crate::io::{Key, Val};

verus! {

/// A key-value store shared by every connection. Callers see it as a
/// mapping from key bytes to value bytes; keys are unique and every
/// operation is total for any key and value.
pub trait Storage {
    /// The mapping this store currently holds.
    spec fn contents(&self) -> Map<Seq<u8>, Seq<u8>>;

    /// Look up the value stored under `key`, if any.
    fn get(&self, key: &Key) -> (r: Option<Val>)
        ensures
            self.contents().contains_key(key@) ==> (r matches Some(v) && v@
                == self.contents()[key@]),
            !self.contents().contains_key(key@) ==> r is None,
    ;

    /// Store `val` under `key`, replacing any value already there.
    fn set(&mut self, key: Key, val: Val)
        ensures
            final(self).contents() == old(self).contents().insert(key@, val@),
    ;

    /// Whether some value is stored under `key`.
    fn has(&self, key: &Key) -> (r: bool)
        ensures
            r == self.contents().contains_key(key@),
    ;

    /// Drop whatever is stored under `key`.
    fn remove(&mut self, key: &Key)
        ensures
            final(self).contents() == old(self).contents().remove(key@),
    ;

    /// Drop every entry.
    fn clear(&mut self)
        ensures
            final(self).contents() == Map::<Seq<u8>, Seq<u8>>::empty(),
    ;
}

} // verus!
