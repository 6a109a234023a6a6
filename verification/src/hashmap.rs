use vstd::prelude::*;
use vstd::map::*;

use crate::io::{Key, Val};
use crate::storage::Storage;

verus! {

/// Keys of an entry list are pairwise distinct.
spec fn keys_unique(es: Seq<(Key, Val)>) -> bool {
    forall|i: int, j: int|
        0 <= i < j < es.len() ==> (#[trigger] es[i]).0@ != (#[trigger] es[j]).0@
}

/// The mapping an entry list holds.
spec fn map_of(es: Seq<(Key, Val)>) -> Map<Seq<u8>, Seq<u8>> {
    Map::new(
        |k: Seq<u8>| exists|i: int| 0 <= i < es.len() && (#[trigger] es[i]).0@ == k,
        |k: Seq<u8>|
            {
                let i = choose|i: int| 0 <= i < es.len() && (#[trigger] es[i]).0@ == k;
                es[i].1@
            },
    )
}

/// An entry's key is mapped, to that entry's value.
proof fn lemma_map_of_found(es: Seq<(Key, Val)>, i: int)
    requires
        keys_unique(es),
        0 <= i < es.len(),
    ensures
        map_of(es).contains_key(es[i].0@),
        map_of(es)[es[i].0@] == es[i].1@,
{
    let k = es[i].0@;
    assert(0 <= i < es.len() && es[i].0@ == k);
    let j = choose|j: int| 0 <= j < es.len() && (#[trigger] es[j]).0@ == k;
    if j != i {
        assert(false);
    }
}

/// A key no entry holds is not mapped.
proof fn lemma_map_of_absent(es: Seq<(Key, Val)>, k: Seq<u8>)
    requires
        forall|i: int| 0 <= i < es.len() ==> (#[trigger] es[i]).0@ != k,
    ensures
        !map_of(es).contains_key(k),
{
}

/// Overwriting the entry that holds a key inserts into the mapping.
proof fn lemma_map_of_update(es: Seq<(Key, Val)>, i: int, p: (Key, Val))
    requires
        keys_unique(es),
        0 <= i < es.len(),
        es[i].0@ == p.0@,
    ensures
        keys_unique(es.update(i, p)),
        map_of(es.update(i, p)) == map_of(es).insert(p.0@, p.1@),
{
    let es1 = es.update(i, p);
    assert forall|a: int, b: int|
        0 <= a < b < es1.len() implies (#[trigger] es1[a]).0@ != (#[trigger] es1[b]).0@ by {
        assert(es1[a].0@ == es[a].0@);
        assert(es1[b].0@ == es[b].0@);
    }
    let m1 = map_of(es.update(i, p));
    let m2 = map_of(es).insert(p.0@, p.1@);
    assert_maps_equal!(m1, m2, k => {
        if k == p.0@ {
            lemma_map_of_found(es1, i);
        } else {
            if map_of(es).contains_key(k) {
                let j = choose|j: int| 0 <= j < es.len() && (#[trigger] es[j]).0@ == k;
                lemma_map_of_found(es, j);
                lemma_map_of_found(es1, j);
            }
            if map_of(es1).contains_key(k) {
                let j = choose|j: int| 0 <= j < es1.len() && (#[trigger] es1[j]).0@ == k;
                lemma_map_of_found(es1, j);
                lemma_map_of_found(es, j);
            }
        }
    });
}

/// Appending an entry for a fresh key inserts into the mapping.
proof fn lemma_map_of_push(es: Seq<(Key, Val)>, p: (Key, Val))
    requires
        keys_unique(es),
        forall|i: int| 0 <= i < es.len() ==> (#[trigger] es[i]).0@ != p.0@,
    ensures
        keys_unique(es.push(p)),
        map_of(es.push(p)) == map_of(es).insert(p.0@, p.1@),
{
    let es1 = es.push(p);
    assert forall|a: int, b: int|
        0 <= a < b < es1.len() implies (#[trigger] es1[a]).0@ != (#[trigger] es1[b]).0@ by {
        if b < es.len() {
            assert(es1[a].0@ == es[a].0@);
            assert(es1[b].0@ == es[b].0@);
        } else {
            assert(es1[a].0@ == es[a].0@);
            assert(es1[b] == p);
        }
    }
    let m1 = map_of(es.push(p));
    let m2 = map_of(es).insert(p.0@, p.1@);
    assert_maps_equal!(m1, m2, k => {
        if k == p.0@ {
            lemma_map_of_found(es1, es.len() as int);
        } else {
            if map_of(es).contains_key(k) {
                let j = choose|j: int| 0 <= j < es.len() && (#[trigger] es[j]).0@ == k;
                lemma_map_of_found(es, j);
                lemma_map_of_found(es1, j);
            }
            if map_of(es1).contains_key(k) {
                let j = choose|j: int| 0 <= j < es1.len() && (#[trigger] es1[j]).0@ == k;
                lemma_map_of_found(es1, j);
                lemma_map_of_found(es, j);
            }
        }
    });
}

/// Dropping the entry that holds a key removes it from the mapping.
proof fn lemma_map_of_remove(es: Seq<(Key, Val)>, i: int)
    requires
        keys_unique(es),
        0 <= i < es.len(),
    ensures
        keys_unique(es.remove(i)),
        map_of(es.remove(i)) == map_of(es).remove(es[i].0@),
{
    let es1 = es.remove(i);
    assert forall|a: int, b: int|
        0 <= a < b < es1.len() implies (#[trigger] es1[a]).0@ != (#[trigger] es1[b]).0@ by {
        let a0 = if a < i { a } else { a + 1 };
        let b0 = if b < i { b } else { b + 1 };
        assert(es1[a] == es[a0]);
        assert(es1[b] == es[b0]);
    }
    let m1 = map_of(es.remove(i));
    let m2 = map_of(es).remove(es[i].0@);
    assert_maps_equal!(m1, m2, k => {
        if k == es[i].0@ {
            assert forall|j: int| 0 <= j < es1.len() implies (#[trigger] es1[j]).0@ != k by {
                let j0 = if j < i { j } else { j + 1 };
                assert(es1[j] == es[j0]);
            }
            lemma_map_of_absent(es1, k);
        } else {
            if map_of(es).contains_key(k) {
                let j = choose|j: int| 0 <= j < es.len() && (#[trigger] es[j]).0@ == k;
                lemma_map_of_found(es, j);
                let j1 = if j < i { j } else { j - 1 };
                assert(es1[j1] == es[j]);
                lemma_map_of_found(es1, j1);
            }
            if map_of(es1).contains_key(k) {
                let j = choose|j: int| 0 <= j < es1.len() && (#[trigger] es1[j]).0@ == k;
                lemma_map_of_found(es1, j);
                let j0 = if j < i { j } else { j + 1 };
                assert(es1[j] == es[j0]);
                lemma_map_of_found(es, j0);
            }
        }
    });
}

/// Whether two byte strings hold the same bytes.
fn bytes_eq(a: &Vec<u8>, b: &Vec<u8>) -> (r: bool)
    ensures
        r == (a@ == b@),
{
    if a.len() != b.len() {
        return false;
    }
    let mut i: usize = 0;
    while i < a.len()
        invariant
            i <= a.len(),
            a@.len() == b@.len(),
            forall|j: int| 0 <= j < i as int ==> a@[j] == b@[j],
        decreases a@.len() - i as int,
    {
        if a[i] != b[i] {
            return false;
        }
        i = i + 1;
    }
    proof {
        assert(a@ =~= b@);
    }
    true
}

/// In-memory storage holding one entry per key, exposed through the
/// `Storage` contract. All decisions go through a key's single entry, so
/// `set` replaces and `get` reads back exactly what was stored.
pub struct HashMapStorage {
    entries: Vec<(Key, Val)>,
}

impl HashMapStorage {
    #[verifier::type_invariant]
    spec fn wf(&self) -> bool {
        keys_unique(self.entries@)
    }

    /// Fresh storage holding nothing.
    pub fn new() -> (r: HashMapStorage)
        ensures
            r.contents() == Map::<Seq<u8>, Seq<u8>>::empty(),
    {
        let r = HashMapStorage { entries: Vec::new() };
        proof {
            assert(r.contents() =~= Map::<Seq<u8>, Seq<u8>>::empty());
        }
        r
    }

    /// The index of the entry that holds `key`, if there is one.
    fn find(&self, key: &Key) -> (r: Option<usize>)
        ensures
            match r {
                Some(i) => i < self.entries@.len() && self.entries@[i as int].0@ == key@,
                None => forall|i: int|
                    0 <= i < self.entries@.len() ==> (#[trigger] self.entries@[i]).0@ != key@,
            },
    {
        let mut i: usize = 0;
        while i < self.entries.len()
            invariant
                i <= self.entries.len(),
                forall|j: int| 0 <= j < i as int ==> (#[trigger] self.entries@[j]).0@ != key@,
            decreases self.entries@.len() - i as int,
        {
            if bytes_eq(&self.entries[i].0, key) {
                return Some(i);
            }
            i = i + 1;
        }
        None
    }
}

impl Storage for HashMapStorage {
    closed spec fn contents(&self) -> Map<Seq<u8>, Seq<u8>> {
        map_of(self.entries@)
    }

    fn get(&self, key: &Key) -> (r: Option<Val>) {
        proof {
            use_type_invariant(&*self);
        }
        match self.find(key) {
            Some(i) => {
                let v = self.entries[i].1.clone();
                proof {
                    lemma_map_of_found(self.entries@, i as int);
                    assert(v@ =~= self.entries@[i as int].1@);
                }
                Some(v)
            },
            None => {
                proof {
                    lemma_map_of_absent(self.entries@, key@);
                }
                None
            },
        }
    }

    fn set(&mut self, key: Key, val: Val) {
        proof {
            use_type_invariant(&*self);
        }
        let found = self.find(&key);
        let ghost es0 = self.entries@;
        let mut entries = Vec::new();
        core::mem::swap(&mut entries, &mut self.entries);
        match found {
            Some(i) => {
                proof {
                    lemma_map_of_update(es0, i as int, (key, val));
                }
                entries[i] = (key, val);
            },
            None => {
                proof {
                    lemma_map_of_push(es0, (key, val));
                }
                entries.push((key, val));
            },
        }
        self.entries = entries;
    }

    fn has(&self, key: &Key) -> (r: bool) {
        proof {
            use_type_invariant(&*self);
        }
        match self.find(key) {
            Some(i) => {
                proof {
                    lemma_map_of_found(self.entries@, i as int);
                }
                true
            },
            None => {
                proof {
                    lemma_map_of_absent(self.entries@, key@);
                }
                false
            },
        }
    }

    fn remove(&mut self, key: &Key) {
        proof {
            use_type_invariant(&*self);
        }
        let found = self.find(key);
        let ghost es0 = self.entries@;
        let mut entries = Vec::new();
        core::mem::swap(&mut entries, &mut self.entries);
        match found {
            Some(i) => {
                proof {
                    lemma_map_of_remove(es0, i as int);
                }
                entries.remove(i);
            },
            None => {
                proof {
                    lemma_map_of_absent(es0, key@);
                    assert(map_of(es0) =~= map_of(es0).remove(key@));
                }
            },
        }
        self.entries = entries;
    }

    fn clear(&mut self) {
        proof {
            use_type_invariant(&*self);
        }
        self.entries = Vec::new();
        proof {
            assert(map_of(self.entries@) =~= Map::<Seq<u8>, Seq<u8>>::empty());
        }
    }
}

} // verus!
