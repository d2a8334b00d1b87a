//! The index of nicknames.
//!
//! Every nickname in use is listed under its folded form with the client
//! that has it, so that no two clients have nicknames that differ in case
//! only.

use vstd::prelude::*;
use crate::text::{distinct, eq, index_in, lemma_index_in, lemma_index_in_is};

verus! {

/// A nickname in its folded form, and the client that has it.
pub struct NickEntry {
    pub key: Vec<u8>,
    pub id: usize,
}

/// The nicknames in use.
pub struct NickIndex {
    pub entries: Vec<NickEntry>,
}

/// The keys of a list of entries.
pub open spec fn entry_keys(entries: Seq<NickEntry>) -> Seq<Seq<u8>> {
    Seq::new(entries.len(), |i: int| entries[i].key@)
}

impl View for NickIndex {
    type V = Map<Seq<u8>, usize>;

    /// The client of each key.
    open spec fn view(&self) -> Map<Seq<u8>, usize> {
        Map::new(
            |key: Seq<u8>| entry_keys(self.entries@).contains(key),
            |key: Seq<u8>| self.entries@[index_in(entry_keys(self.entries@), key)].id,
        )
    }
}

impl NickIndex {
    /// No key is listed twice.
    pub open spec fn wf(&self) -> bool {
        distinct(entry_keys(self.entries@))
    }

    /// An index without entries.
    pub fn new() -> (r: NickIndex)
        ensures
            r.wf(),
            r@ == Map::<Seq<u8>, usize>::empty(),
    {
        let r = NickIndex { entries: Vec::new() };
        assert(r@ =~= Map::<Seq<u8>, usize>::empty());
        r
    }

    fn find(&self, key: &[u8]) -> (at: usize)
        ensures
            at == index_in(entry_keys(self.entries@), key@),
            at <= self.entries@.len(),
            at < self.entries@.len() <==> self@.dom().contains(key@),
    {
        let ghost keys = entry_keys(self.entries@);
        let mut i: usize = 0;
        while i < self.entries.len()
            invariant
                i <= self.entries@.len(),
                keys == entry_keys(self.entries@),
                forall|j: int| 0 <= j < i ==> keys[j] != key@,
            ensures
                i <= self.entries@.len(),
                i < self.entries@.len() ==> keys[i as int] == key@,
                forall|j: int| 0 <= j < i ==> keys[j] != key@,
            decreases self.entries@.len() - i,
        {
            if eq(self.entries[i].key.as_slice(), key) {
                break ;
            }
            i += 1;
        }
        proof {
            lemma_index_in_is(keys, key@, i as int);
            lemma_index_in(keys, key@);
        }
        i
    }

    /// The client listed under the key.
    pub fn get(&self, key: &[u8]) -> (r: Option<usize>)
        ensures
            r.is_some() == self@.dom().contains(key@),
            r.is_some() ==> r.unwrap() == self@[key@],
    {
        let at = self.find(key);
        if at < self.entries.len() {
            Some(self.entries[at].id)
        } else {
            None
        }
    }

    /// Whether the key is listed.
    pub fn contains(&self, key: &[u8]) -> (r: bool)
        ensures
            r == self@.dom().contains(key@),
    {
        self.find(key) < self.entries.len()
    }

    /// Lists the client under the key, in place of the one listed there.
    pub fn insert(&mut self, key: Vec<u8>, id: usize)
        requires
            old(self).wf(),
        ensures
            final(self).wf(),
            final(self)@ == old(self)@.insert(key@, id),
    {
        let at = self.find(key.as_slice());
        let ghost before = entry_keys(self.entries@);
        let ghost k = key@;
        proof {
            lemma_index_in(before, k);
        }
        if at < self.entries.len() {
            self.entries[at] = NickEntry { key, id };
            assert(entry_keys(self.entries@) =~= before);
        } else {
            self.entries.push(NickEntry { key, id });
            assert(entry_keys(self.entries@) =~= before.push(k));
            proof {
                lemma_index_in(before, k);
            }
        }
        proof {
            let after = entry_keys(self.entries@);
            assert forall|key2: Seq<u8>| #[trigger]
                self@.dom().contains(key2) == old(self)@.insert(k, id).dom().contains(key2) by {
                if before.contains(key2) {
                    let j = choose|j: int| 0 <= j < before.len() && before[j] == key2;
                    assert(after[j] == key2);
                }
                if after.contains(key2) && key2 != k {
                    let j = choose|j: int| 0 <= j < after.len() && after[j] == key2;
                    assert(before[j] == key2);
                }
                if key2 == k {
                    assert(after[at as int] == k);
                }
            }
            assert forall|key2: Seq<u8>| self@.dom().contains(key2) implies #[trigger] self@[key2]
                == old(self)@.insert(k, id)[key2] by {
                lemma_index_in(after, key2);
                lemma_index_in(before, key2);
                let j = index_in(after, key2);
                if key2 != k {
                    assert(before[j] == key2);
                    assert forall|m: int| 0 <= m < j implies before[m] != key2 by {
                        assert(after[m] != key2);
                    }
                    lemma_index_in_is(before, key2, j);
                } else {
                    assert(after[at as int] == k);
                    if j != at {
                        if j < at {
                            assert(after[j] != after[at as int]);
                        } else {
                            assert(after[at as int] != after[j]);
                        }
                    }
                }
            }
            assert(self@ =~= old(self)@.insert(k, id));
        }
    }

    /// Takes the key off the list.
    pub fn remove(&mut self, key: &[u8])
        requires
            old(self).wf(),
        ensures
            final(self).wf(),
            final(self)@ == old(self)@.remove(key@),
    {
        let at = self.find(key);
        let ghost before = entry_keys(self.entries@);
        proof {
            lemma_index_in(before, key@);
        }
        if at < self.entries.len() {
            let _ = self.entries.remove(at);
            proof {
                let after = entry_keys(self.entries@);
                assert(after =~= before.remove(at as int));
                assert forall|i: int, j: int| 0 <= i < j < after.len() implies after[i]
                    != after[j] by {
                    let a = if i < at { i } else { i + 1 };
                    let b = if j < at { j } else { j + 1 };
                    assert(before[a] != before[b]);
                }
                assert forall|key2: Seq<u8>| #[trigger]
                    self@.dom().contains(key2) == old(self)@.remove(key@).dom().contains(key2) by {
                    if before.contains(key2) && key2 != key@ {
                        let j = choose|j: int| 0 <= j < before.len() && before[j] == key2;
                        let a = if j < at { j } else { j - 1 };
                        assert(after[a] == key2);
                    }
                    if after.contains(key2) {
                        let j = choose|j: int| 0 <= j < after.len() && after[j] == key2;
                        let a = if j < at { j } else { j + 1 };
                        assert(before[a] == key2);
                        if key2 == key@ {
                            if a < at {
                                assert(before[a] != before[at as int]);
                            } else {
                                assert(before[at as int] != before[a]);
                            }
                        }
                    }
                }
                assert forall|key2: Seq<u8>| self@.dom().contains(key2) implies #[trigger] self@[key2]
                    == old(self)@.remove(key@)[key2] by {
                    lemma_index_in(after, key2);
                    lemma_index_in(before, key2);
                    let j = index_in(after, key2);
                    let a = if j < at { j } else { j + 1 };
                    assert(before[a] == key2);
                    assert forall|m: int| 0 <= m < a implies before[m] != key2 by {
                        if m < at {
                            assert(after[m] != key2);
                        } else if m > at {
                            assert(after[m - 1] != key2);
                        } else {
                            assert(before[at as int] != before[a]);
                        }
                    }
                    lemma_index_in_is(before, key2, a);
                }
                assert(self@ =~= old(self)@.remove(key@));
            }
        } else {
            assert(self@ =~= old(self)@.remove(key@));
        }
    }
}

} // verus!
