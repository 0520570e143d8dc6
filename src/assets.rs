use vstd::prelude::*;
use crate::error::Error;

verus! {

/// Index of the first entry stored under `key`, or -1 where there is none.
pub open spec fn find_key(entries: Seq<(Seq<char>, Seq<u8>)>, key: Seq<char>) -> int
    decreases entries.len(),
{
    if entries.len() == 0 {
        -1
    } else if entries[0].0 == key {
        0
    } else {
        let k = find_key(entries.drop_first(), key);
        if k < 0 {
            -1
        } else {
            k + 1
        }
    }
}

/// What `remove` does to a store's entries and what it hands back.
pub open spec fn removed(entries: Seq<(Seq<char>, Seq<u8>)>, key: Seq<char>) -> (
    Result<Seq<u8>, Error>,
    Seq<(Seq<char>, Seq<u8>)>,
) {
    let k = find_key(entries, key);
    if k < 0 {
        (Err(Error::AssetNotFound), entries)
    } else {
        (Ok(entries[k].1), entries.remove(k))
    }
}

/// Whether no two entries share a key.
pub open spec fn keys_unique(entries: Seq<(Seq<char>, Seq<u8>)>) -> bool {
    forall|i: int, j: int| 0 <= i < j < entries.len() ==> entries[i].0 != entries[j].0
}

/// A raw byte store keyed by path. `new`, `insert` and `remove` keep each
/// path held at most once (`keys_unique`).
pub struct RawAssets {
    entries: Vec<(String, Vec<u8>)>,
}

impl View for RawAssets {
    type V = Seq<(Seq<char>, Seq<u8>)>;

    closed spec fn view(&self) -> Self::V {
        self.entries@.map_values(|e: (String, Vec<u8>)| (e.0@, e.1@))
    }
}

/// Where `find_key` points, and that no earlier entry has the key.
pub proof fn lemma_find_key_bounds(entries: Seq<(Seq<char>, Seq<u8>)>, key: Seq<char>)
    ensures
        -1 <= find_key(entries, key) < entries.len(),
        find_key(entries, key) >= 0 ==> entries[find_key(entries, key)].0 == key,
        find_key(entries, key) < 0 ==> forall|j: int|
            0 <= j < entries.len() ==> entries[j].0 != key,
        forall|j: int|
            0 <= j < find_key(entries, key) ==> entries[j].0 != key,
    decreases entries.len(),
{
    if entries.len() > 0 && entries[0].0 != key {
        lemma_find_key_bounds(entries.drop_first(), key);
        assert forall|j: int| 0 < j < entries.len() implies entries[j] == entries.drop_first()[j - 1] by {}
    }
}

/// What `insert` does to a store's entries: the entry under `key` is
/// replaced where there is one, else the new entry goes last.
pub open spec fn inserted(entries: Seq<(Seq<char>, Seq<u8>)>, key: Seq<char>, bytes: Seq<u8>) -> Seq<
    (Seq<char>, Seq<u8>),
> {
    let k = find_key(entries, key);
    if k < 0 {
        entries.push((key, bytes))
    } else {
        entries.update(k, (key, bytes))
    }
}

/// What `get` returns.
pub open spec fn looked_up(entries: Seq<(Seq<char>, Seq<u8>)>, key: Seq<char>) -> Option<Seq<u8>> {
    let k = find_key(entries, key);
    if k < 0 {
        None
    } else {
        Some(entries[k].1)
    }
}

impl RawAssets {
    /// An empty store.
    pub fn new() -> (r: Self)
        ensures
            r@ == Seq::<(Seq<char>, Seq<u8>)>::empty(),
            keys_unique(r@),
    {
        let r = RawAssets { entries: Vec::new() };
        assert(r@ =~= Seq::<(Seq<char>, Seq<u8>)>::empty());
        r
    }

    /// Number of entries held.
    pub fn len(&self) -> (r: usize)
        ensures
            r == self@.len(),
    {
        self.entries.len()
    }

    /// Position of the entry stored under `key`.
    fn position(&self, key: &str) -> (r: Option<usize>)
        ensures
            match r {
                Some(k) => k as int == find_key(self@, key@) && k < self@.len(),
                None => find_key(self@, key@) < 0,
            },
    {
        proof {
            lemma_find_key_bounds(self@, key@);
        }
        let owned = key.to_owned();
        let mut i: usize = 0;
        while i < self.entries.len()
            invariant
                i <= self.entries.len(),
                self@.len() == self.entries.len(),
                forall|j: int| 0 <= j < i ==> self@[j].0 != key@,
                owned@ == key@,
            decreases self.entries.len() - i,
        {
            assert(self@[i as int].0 == self.entries@[i as int].0@);
            if self.entries[i].0 == owned {
                proof {
                    lemma_find_key_bounds(self@, key@);
                    let f = find_key(self@, key@);
                    if 0 <= f < i {
                        assert(self@[f].0 != key@);
                    }
                }
                return Some(i);
            }
            i = i + 1;
        }
        None
    }

    /// Stores `bytes` under `path`, replacing what was stored there.
    pub fn insert(self, path: &str, bytes: Vec<u8>) -> (r: Self)
        ensures
            r@ == inserted(self@, path@, bytes@),
            keys_unique(self@) ==> keys_unique(r@),
            find_key(r@, path@) >= 0,
    {
        let mut s = self;
        let k = s.position(path);
        match k {
            Some(k) => {
                s.entries.set(k, (path.to_string(), bytes));
            },
            None => {
                s.entries.push((path.to_string(), bytes));
            },
        }
        assert(s@ =~= inserted(self@, path@, bytes@));
        proof {
            lemma_find_key_bounds(self@, path@);
            lemma_find_key_bounds(s@, path@);
            if find_key(self@, path@) < 0 {
                assert(s@[s@.len() - 1].0 == path@);
            } else {
                assert(s@[find_key(self@, path@)].0 == path@);
            }
        }
        s
    }

    /// The bytes stored under `path`, leaving them in place.
    pub fn get(&self, path: &str) -> (r: Option<&Vec<u8>>)
        ensures
            match r {
                Some(b) => looked_up(self@, path@) == Some(b@),
                None => looked_up(self@, path@) is None,
            },
    {
        match self.position(path) {
            Some(k) => Some(&self.entries[k].1),
            None => None,
        }
    }

    /// Takes the bytes stored under `path` out of the store.
    pub fn remove(&mut self, path: &str) -> (r: Result<Vec<u8>, Error>)
        ensures
            ({
                let (res, rest) = removed(old(self)@, path@);
                &&& final(self)@ == rest
                &&& keys_unique(old(self)@) ==> keys_unique(final(self)@) && find_key(final(self)@, path@) < 0
                &&& match r {
                    Ok(b) => res == Ok::<Seq<u8>, Error>(b@),
                    Err(e) => res == Err::<Seq<u8>, Error>(e),
                }
            }),
    {
        match self.position(path) {
            Some(k) => {
                let (_, b) = self.entries.remove(k);
                assert(self@ =~= old(self)@.remove(k as int));
                proof {
                    lemma_find_key_bounds(self@, path@);
                    lemma_find_key_bounds(old(self)@, path@);
                    let f = find_key(self@, path@);
                    if keys_unique(old(self)@) && f >= 0 {
                        assert(self@[f].0 == path@);
                        assert(old(self)@[k as int].0 == path@);
                        if f < k {
                            assert(self@[f] == old(self)@[f]);
                            assert(old(self)@[f].0 == old(self)@[k as int].0);
                        } else {
                            assert(self@[f] == old(self)@[f + 1]);
                            assert(old(self)@[f + 1].0 == old(self)@[k as int].0);
                        }
                    }
                }
                Ok(b)
            },
            None => Err(Error::AssetNotFound),
        }
    }
}

} // verus!
