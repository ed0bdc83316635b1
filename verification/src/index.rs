//! The in-memory index: a map from key to file pointer.

use vstd::prelude::*;

use crate::FilePointer;

verus! {

/// The pointer stored for `k`, scanning entries from the most recent.
pub open spec fn idx_find(s: Seq<(Seq<u8>, FilePointer)>, k: Seq<u8>) -> Option<FilePointer>
    decreases s.len(),
{
    if s.len() == 0 {
        None
    } else if s.last().0 == k {
        Some(s.last().1)
    } else {
        idx_find(s.drop_last(), k)
    }
}

/// No two entries share a key.
pub open spec fn idx_distinct(s: Seq<(Seq<u8>, FilePointer)>) -> bool {
    forall|i: int, j: int| 0 <= i < j < s.len() ==> s[i].0 != s[j].0
}

/// With distinct keys, an entry's key finds exactly its pointer.
pub proof fn lemma_idx_find_at(s: Seq<(Seq<u8>, FilePointer)>, i: int)
    requires
        idx_distinct(s),
        0 <= i < s.len(),
    ensures
        idx_find(s, s[i].0) == Some(s[i].1),
    decreases s.len(),
{
    if i + 1 == s.len() {
    } else {
        assert(s.drop_last()[i] == s[i]);
        lemma_idx_find_at(s.drop_last(), i);
    }
}

/// A key matching no entry finds nothing.
pub proof fn lemma_idx_find_absent(s: Seq<(Seq<u8>, FilePointer)>, k: Seq<u8>)
    requires
        forall|i: int| 0 <= i < s.len() ==> s[i].0 != k,
    ensures
        idx_find(s, k) is None,
    decreases s.len(),
{
    if s.len() > 0 {
        assert(forall|i: int| 0 <= i < s.drop_last().len() ==> s.drop_last()[i] == s[i]);
        lemma_idx_find_absent(s.drop_last(), k);
    }
}

/// Whatever a key finds is the pointer of some entry with that key.
pub proof fn lemma_idx_find_witness(s: Seq<(Seq<u8>, FilePointer)>, k: Seq<u8>) -> (i: int)
    requires
        idx_find(s, k) is Some,
    ensures
        0 <= i < s.len(),
        s[i].0 == k,
        s[i].1 == idx_find(s, k).unwrap(),
    decreases s.len(),
{
    if s.last().0 == k {
        s.len() - 1
    } else {
        let i = lemma_idx_find_witness(s.drop_last(), k);
        assert(s.drop_last()[i] == s[i]);
        i
    }
}

/// A collection of key/pointer entries with unique keys.
///
/// Entries are kept in insertion order; the operations are point
/// lookups, so the order is unobservable through the map view.
#[derive(Debug)]
pub struct Index {
    entries: Vec<(Vec<u8>, FilePointer)>,
}

impl Index {
    /// The entries as mathematical sequences.
    pub closed spec fn view(&self) -> Seq<(Seq<u8>, FilePointer)> {
        self.entries@.map_values(|e: (Vec<u8>, FilePointer)| (e.0@, e.1))
    }

    /// Keys are unique.
    pub open spec fn wf(&self) -> bool {
        idx_distinct(self.view())
    }

    /// The index as a map from key to pointer.
    pub open spec fn as_map(&self) -> Map<Seq<u8>, FilePointer> {
        Map::new(
            |k: Seq<u8>| idx_find(self.view(), k) is Some,
            |k: Seq<u8>| idx_find(self.view(), k).unwrap(),
        )
    }

    /// An empty index.
    pub fn new() -> (r: Index)
        ensures
            r.wf(),
            r.view() == Seq::<(Seq<u8>, FilePointer)>::empty(),
    {
        let r = Index { entries: Vec::new() };
        proof {
            assert(r.view() =~= Seq::<(Seq<u8>, FilePointer)>::empty());
        }
        r
    }

    /// How many keys the index holds.
    pub fn len(&self) -> (r: usize)
        ensures
            r == self.view().len(),
    {
        self.entries.len()
    }

    /// The entry at position `i`, for iteration.
    pub fn entry_at(&self, i: usize) -> (r: (&Vec<u8>, FilePointer))
        requires
            i < self.view().len(),
        ensures
            (r.0@, r.1) == self.view()[i as int],
    {
        let e: &(Vec<u8>, FilePointer) = &self.entries[i];
        (&e.0, e.1)
    }

    /// The position of `key` among the entries, if present.
    fn position(&self, key: &[u8]) -> (r: Option<usize>)
        ensures
            match r {
                Some(i) => i < self.view().len() && self.view()[i as int].0 == key@,
                None => forall|i: int| 0 <= i < self.view().len() ==> self.view()[i].0 != key@,
            },
    {
        let n: usize = self.entries.len();
        let mut i: usize = 0;
        while i < n
            invariant
                n == self.view().len(),
                i <= n,
                forall|j: int| 0 <= j < i ==> self.view()[j].0 != key@,
            decreases n - i,
        {
            let e: &(Vec<u8>, FilePointer) = &self.entries[i];
            if compare_bytes(e.0.as_slice(), key) {
                return Some(i);
            }
            i = i + 1;
        }
        None
    }

    /// Whether `key` is present.
    pub fn contains(&self, key: &[u8]) -> (r: bool)
        requires
            self.wf(),
        ensures
            r == self.as_map().contains_key(key@),
    {
        match self.position(key) {
            Some(i) => {
                proof {
                    lemma_idx_find_at(self.view(), i as int);
                }
                true
            },
            None => {
                proof {
                    lemma_idx_find_absent(self.view(), key@);
                }
                false
            },
        }
    }

    /// The pointer stored for `key`, if any.
    pub fn get(&self, key: &[u8]) -> (r: Option<FilePointer>)
        requires
            self.wf(),
        ensures
            match r {
                Some(p) => self.as_map().contains_pair(key@, p),
                None => !self.as_map().contains_key(key@),
            },
    {
        match self.position(key) {
            Some(i) => {
                proof {
                    lemma_idx_find_at(self.view(), i as int);
                }
                let e: &(Vec<u8>, FilePointer) = &self.entries[i];
                Some(e.1)
            },
            None => {
                proof {
                    lemma_idx_find_absent(self.view(), key@);
                }
                None
            },
        }
    }

    /// Binds `key` to `ptr`, replacing any previous binding.
    pub fn set(&mut self, key: &[u8], ptr: FilePointer)
        requires
            old(self).wf(),
        ensures
            final(self).wf(),
            final(self).as_map() == old(self).as_map().insert(key@, ptr),
            (forall|i: int| 0 <= i < old(self).view().len() ==> (#[trigger] old(self).view()[i]).0
                != key@) ==> final(self).view() == old(self).view().push((key@, ptr)),
    {
        let pos: Option<usize> = self.position(key);
        match pos {
            Some(i) => {
                let mut k: Vec<u8> = Vec::new();
                k.extend_from_slice(key);
                proof {
                    assert(k@ =~= key@);
                }
                self.entries[i] = (k, ptr);
                proof {
                    assert(self.view() =~= old(self).view().update(i as int, (key@, ptr)));
                    assert forall|q: Seq<u8>| true implies #[trigger] idx_find(
                        self.view(),
                        q,
                    ) == (if q == key@ {
                        Some(ptr)
                    } else {
                        idx_find(old(self).view(), q)
                    }) by {
                        lemma_idx_set(old(self).view(), self.view(), i as int, key@, ptr, q);
                    }
                    assert(self.as_map() =~= old(self).as_map().insert(key@, ptr));
                }
            },
            None => {
                let mut k: Vec<u8> = Vec::new();
                k.extend_from_slice(key);
                proof {
                    assert(k@ =~= key@);
                }
                self.entries.push((k, ptr));
                proof {
                    assert(self.view() =~= old(self).view().push((key@, ptr)));
                    assert(idx_distinct(self.view())) by {
                        assert forall|x: int, y: int|
                            0 <= x < y < self.view().len() implies self.view()[x].0
                            != self.view()[y].0 by {
                            if y + 1 == self.view().len() {
                                assert(self.view()[x] == old(self).view()[x]);
                            } else {
                                assert(self.view()[x] == old(self).view()[x]);
                                assert(self.view()[y] == old(self).view()[y]);
                            }
                        }
                    }
                    assert forall|q: Seq<u8>| true implies #[trigger] idx_find(
                        self.view(),
                        q,
                    ) == (if q == key@ {
                        Some(ptr)
                    } else {
                        idx_find(old(self).view(), q)
                    }) by {
                        assert(self.view().drop_last() =~= old(self).view());
                    }
                    assert(self.as_map() =~= old(self).as_map().insert(key@, ptr));
                }
            },
        }
    }

    /// Removes the binding of `key`, if any.
    pub fn remove(&mut self, key: &[u8])
        requires
            old(self).wf(),
        ensures
            final(self).wf(),
            final(self).as_map() == old(self).as_map().remove(key@),
    {
        let pos: Option<usize> = self.position(key);
        match pos {
            Some(i) => {
                self.entries.remove(i);
                proof {
                    assert(self.view() =~= old(self).view().remove(i as int));
                    assert forall|q: Seq<u8>| true implies #[trigger] idx_find(
                        self.view(),
                        q,
                    ) == (if q == key@ {
                        Option::<FilePointer>::None
                    } else {
                        idx_find(old(self).view(), q)
                    }) by {
                        lemma_idx_remove(old(self).view(), self.view(), i as int, key@, q);
                    }
                    assert(self.as_map() =~= old(self).as_map().remove(key@));
                }
            },
            None => {
                proof {
                    lemma_idx_find_absent(self.view(), key@);
                    assert(self.as_map() =~= old(self).as_map().remove(key@));
                }
            },
        }
    }
}

/// Byte-wise equality of two slices.
pub fn compare_bytes(a: &[u8], b: &[u8]) -> (r: bool)
    ensures
        r == (a@ == b@),
{
    let n: usize = a.len();
    if n != b.len() {
        proof {
            assert(a@.len() != b@.len());
        }
        return false;
    }
    let mut i: usize = 0;
    while i < n
        invariant
            n == a@.len(),
            n == b@.len(),
            i <= n,
            forall|j: int| 0 <= j < i ==> a@[j] == b@[j],
        decreases n - i,
    {
        if a[i] != b[i] {
            return false;
        }
        i = i + 1;
    }
    proof {
        vstd::assert_seqs_equal!(a@ == b@);
    }
    true
}

/// Replacing the entry at `i` rebinds exactly that entry's old key.
proof fn lemma_idx_set(
    s0: Seq<(Seq<u8>, FilePointer)>,
    s1: Seq<(Seq<u8>, FilePointer)>,
    i: int,
    k: Seq<u8>,
    ptr: FilePointer,
    q: Seq<u8>,
)
    requires
        idx_distinct(s0),
        0 <= i < s0.len(),
        s0[i].0 == k,
        s1.len() == s0.len(),
        s1[i] == (k, ptr),
        forall|j: int| 0 <= j < s0.len() && j != i ==> s1[j] == s0[j],
    ensures
        idx_distinct(s1),
        idx_find(s1, q) == (if q == k {
            Some(ptr)
        } else {
            idx_find(s0, q)
        }),
{
    assert(idx_distinct(s1)) by {
        assert forall|x: int, y: int| 0 <= x < y < s1.len() implies s1[x].0 != s1[y].0 by {
            assert(s1[x].0 == s0[x].0);
            assert(s1[y].0 == s0[y].0);
        }
    }
    if q == k {
        lemma_idx_find_at(s1, i);
    } else {
        lemma_idx_find_changed_other(s0, s1, i, q);
    }
}

/// A key different from the changed entry's key finds the same thing.
proof fn lemma_idx_find_changed_other(
    s0: Seq<(Seq<u8>, FilePointer)>,
    s1: Seq<(Seq<u8>, FilePointer)>,
    i: int,
    q: Seq<u8>,
)
    requires
        0 <= i < s0.len(),
        s1.len() == s0.len(),
        forall|j: int| 0 <= j < s0.len() && j != i ==> s1[j] == s0[j],
        s0[i].0 != q,
        s1[i].0 != q,
    ensures
        idx_find(s1, q) == idx_find(s0, q),
    decreases s0.len(),
{
    if s0.len() > 0 {
        if i + 1 == s0.len() {
            assert(s1.drop_last() =~= s0.drop_last());
        } else {
            assert(s1.last() == s0.last());
            if s0.last().0 != q {
                assert(forall|j: int|
                    0 <= j < s0.drop_last().len() && j != i ==> s1.drop_last()[j]
                        == s0.drop_last()[j]);
                assert(s0.drop_last()[i] == s0[i]);
                assert(s1.drop_last()[i] == s1[i]);
                lemma_idx_find_changed_other(s0.drop_last(), s1.drop_last(), i, q);
            }
        }
    }
}

/// Removing the entry at `i` unbinds exactly its key.
proof fn lemma_idx_remove(
    s0: Seq<(Seq<u8>, FilePointer)>,
    s1: Seq<(Seq<u8>, FilePointer)>,
    i: int,
    k: Seq<u8>,
    q: Seq<u8>,
)
    requires
        idx_distinct(s0),
        0 <= i < s0.len(),
        s0[i].0 == k,
        s1 == s0.remove(i),
    ensures
        idx_distinct(s1),
        idx_find(s1, q) == (if q == k {
            Option::<FilePointer>::None
        } else {
            idx_find(s0, q)
        }),
    decreases s0.len(),
{
    assert(idx_distinct(s1)) by {
        assert forall|x: int, y: int| 0 <= x < y < s1.len() implies s1[x].0 != s1[y].0 by {
            let x0: int = if x < i {
                x
            } else {
                x + 1
            };
            let y0: int = if y < i {
                y
            } else {
                y + 1
            };
            assert(s1[x] == s0[x0]);
            assert(s1[y] == s0[y0]);
        }
    }
    if q == k {
        assert forall|j: int| 0 <= j < s1.len() implies s1[j].0 != k by {
            let j0: int = if j < i {
                j
            } else {
                j + 1
            };
            assert(s1[j] == s0[j0]);
        }
        lemma_idx_find_absent(s1, q);
    } else {
        if i + 1 == s0.len() {
            assert(s1 =~= s0.drop_last());
            if s0.last().0 == q {
                assert(false);
            }
        } else {
            assert(s1.last() == s0.last());
            if s0.last().0 == q {
                lemma_idx_find_at(s0, s0.len() - 1);
                lemma_idx_find_at(s1, s1.len() - 1);
            } else {
                assert(s1.drop_last() =~= s0.drop_last().remove(i));
                assert(s0.drop_last()[i] == s0[i]);
                assert(idx_distinct(s0.drop_last())) by {
                    assert(forall|j: int|
                        0 <= j < s0.drop_last().len() ==> s0.drop_last()[j] == s0[j]);
                }
                lemma_idx_remove(s0.drop_last(), s1.drop_last(), i, k, q);
            }
        }
    }
}

} // verus!
