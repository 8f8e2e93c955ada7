//! A reference-counted cache keyed by string paths.
//!
//! Values are stored once and handed out as shared handles; a key is
//! never silently overwritten.

use vstd::prelude::*;
use std::rc::Rc;

verus! {

/// How the cache can fail: the key is already taken, or the loader a
/// miss ran could not produce a value.
#[derive(Debug)]
pub enum StorageError {
    StorageOccupied(String),
    Error(String),
}

/// The map a sequence of key-value entries represents; a later entry
/// wins, though the storage never keeps two entries with one key.
pub open spec fn kv_map<T>(s: Seq<(String, Rc<T>)>) -> Map<Seq<char>, Rc<T>>
    decreases s.len(),
{
    if s.len() == 0 {
        Map::empty()
    } else {
        kv_map(s.drop_last()).insert(s.last().0@, s.last().1)
    }
}

/// No two entries share a key.
pub open spec fn kv_unique<T>(s: Seq<(String, Rc<T>)>) -> bool {
    forall|i: int, j: int|
        0 <= i < j < s.len() ==> (#[trigger] s[i]).0@ != (#[trigger] s[j]).0@
}

/// What the represented map holds: exactly the keys of the entries,
/// each bound to its entry's value.
proof fn lemma_kv_map_props<T>(s: Seq<(String, Rc<T>)>)
    requires
        kv_unique(s),
    ensures
        forall|k: Seq<char>|
            kv_map(s).dom().contains(k) <==> exists|i: int|
                0 <= i < s.len() && (#[trigger] s[i]).0@ == k,
        forall|i: int|
            0 <= i < s.len() ==> kv_map(s)[(#[trigger] s[i]).0@] == s[i].1,
    decreases s.len(),
{
    if s.len() > 0 {
        assert(kv_unique(s.drop_last())) by {
            assert forall|i: int, j: int|
                0 <= i < j < s.drop_last().len() implies (#[trigger] s.drop_last()[i]).0@ != (
            #[trigger] s.drop_last()[j]).0@ by {
                assert(s.drop_last()[i] == s[i]);
                assert(s.drop_last()[j] == s[j]);
            }
        }
        lemma_kv_map_props(s.drop_last());
        assert forall|k: Seq<char>|
            kv_map(s).dom().contains(k) implies exists|i: int|
            0 <= i < s.len() && (#[trigger] s[i]).0@ == k by {
            if k == s.last().0@ {
                assert(s[s.len() - 1].0@ == k);
            } else {
                assert(kv_map(s.drop_last()).dom().contains(k));
                let i = choose|i: int|
                    0 <= i < s.drop_last().len() && (#[trigger] s.drop_last()[i]).0@ == k;
                assert(s.drop_last()[i] == s[i]);
                assert(s[i].0@ == k);
            }
        }
        assert forall|k: Seq<char>|
            (exists|i: int| 0 <= i < s.len() && (#[trigger] s[i]).0@ == k) implies kv_map(
            s,
        ).dom().contains(k) by {
            let i = choose|i: int| 0 <= i < s.len() && (#[trigger] s[i]).0@ == k;
            if i < s.len() - 1 {
                assert(s.drop_last()[i] == s[i]);
                assert(exists|j: int|
                    0 <= j < s.drop_last().len() && (#[trigger] s.drop_last()[j]).0@ == k);
                assert(kv_map(s.drop_last()).dom().contains(k));
            } else {
                assert(k == s.last().0@);
            }
        }
        assert forall|i: int|
            0 <= i < s.len() implies kv_map(s)[(#[trigger] s[i]).0@] == s[i].1 by {
            if i < s.len() - 1 {
                assert(s.drop_last()[i] == s[i]);
                assert(s[i].0@ != s.last().0@);
            }
        }
    }
}

/// Appending a fresh entry inserts its binding.
proof fn lemma_kv_map_push<T>(s: Seq<(String, Rc<T>)>, p: (String, Rc<T>))
    ensures
        kv_map(s.push(p)) == kv_map(s).insert(p.0@, p.1),
{
    assert(s.push(p).drop_last() =~= s);
    assert(s.push(p).last() == p);
}

/// Removing the entry at one index removes exactly its binding.
proof fn lemma_kv_map_remove<T>(s: Seq<(String, Rc<T>)>, i: int)
    requires
        kv_unique(s),
        0 <= i < s.len(),
    ensures
        kv_map(s.remove(i)) =~= kv_map(s).remove(s[i].0@),
    decreases s.len(),
{
    lemma_kv_map_props(s);
    assert(kv_unique(s.drop_last())) by {
        assert forall|a: int, b: int|
            0 <= a < b < s.drop_last().len() implies (#[trigger] s.drop_last()[a]).0@ != (
        #[trigger] s.drop_last()[b]).0@ by {
            assert(s.drop_last()[a] == s[a]);
            assert(s.drop_last()[b] == s[b]);
        }
    }
    lemma_kv_map_props(s.drop_last());
    if i == s.len() - 1 {
        assert(s.remove(i) =~= s.drop_last());
        assert(!kv_map(s.drop_last()).dom().contains(s[i].0@)) by {
            if kv_map(s.drop_last()).dom().contains(s[i].0@) {
                let j = choose|j: int|
                    0 <= j < s.drop_last().len() && (#[trigger] s.drop_last()[j]).0@ == s[i].0@;
                assert(s[j].0@ == s[i].0@);
            }
        }
    } else {
        lemma_kv_map_remove(s.drop_last(), i);
        assert(s.remove(i).drop_last() =~= s.drop_last().remove(i));
        assert(s.remove(i).last() == s.last());
        assert(s[i].0@ != s.last().0@);
    }
}

/// A cache of shared handles, keyed by path.
#[verifier::reject_recursive_types(T)]
pub struct Storage<T> {
    data: Vec<(String, Rc<T>)>,
}

impl<T> Storage<T> {
    /// The map of stored values the cache represents.
    pub closed spec fn view_map(self) -> Map<Seq<char>, Rc<T>> {
        kv_map(self.data@)
    }

    /// The cache never holds two entries with one key.
    pub closed spec fn wf(self) -> bool {
        kv_unique(self.data@)
    }

    /// An empty cache.
    pub fn new() -> (s: Storage<T>)
        ensures
            s.wf(),
            s.view_map() == Map::<Seq<char>, Rc<T>>::empty(),
    {
        let s = Storage { data: Vec::new() };
        proof {
            assert(s.view_map() =~= Map::<Seq<char>, Rc<T>>::empty());
        }
        s
    }

    /// The index of the entry with this key, if one exists.
    fn find(&self, path: &String) -> (r: Option<usize>)
        requires
            self.wf(),
        ensures
            match r {
                Some(i) => i < self.data@.len() && self.data@[i as int].0@ == path@,
                None => !self.view_map().dom().contains(path@),
            },
    {
        let mut i: usize = 0;
        while i < self.data.len()
            invariant
                self.wf(),
                i <= self.data@.len(),
                forall|j: int| 0 <= j < i ==> (#[trigger] self.data@[j]).0@ != path@,
            decreases self.data@.len() - i,
        {
            if self.data[i].0 == *path {
                return Some(i);
            }
            i += 1;
        }
        proof {
            lemma_kv_map_props(self.data@);
        }
        None
    }

    /// Stores a value under a fresh key and returns a handle to it; a
    /// key already present is refused unchanged.
    pub fn add(&mut self, path: &String, data: T) -> (r: Result<Rc<T>, StorageError>)
        requires
            old(self).wf(),
        ensures
            final(self).wf(),
            match r {
                Ok(h) => {
                    &&& !old(self).view_map().dom().contains(path@)
                    &&& h == data
                    &&& final(self).view_map() == old(self).view_map().insert(path@, h)
                },
                Err(e) => {
                    &&& old(self).view_map().dom().contains(path@)
                    &&& *final(self) == *old(self)
                    &&& e matches StorageError::StorageOccupied(p) && p@ == path@
                },
            },
    {
        let found = self.find(path);
        match found {
            Some(_) => {
                proof {
                    lemma_kv_map_props(self.data@);
                }
                Err(StorageError::StorageOccupied(path.clone()))
            },
            None => {
                let handle = Rc::new(data);
                let ret = handle.clone();
                let ghost pre = self.data@;
                self.data.push((path.clone(), handle));
                proof {
                    lemma_kv_map_props(pre);
                    lemma_kv_map_push(pre, self.data@.last());
                    assert(self.data@ =~= pre.push(self.data@.last()));
                    assert(self.data@.drop_last() =~= pre);
                    assert forall|a: int, b: int|
                        0 <= a < b < self.data@.len() implies (#[trigger] self.data@[a]).0@ != (
                    #[trigger] self.data@[b]).0@ by {
                        if b < self.data@.len() - 1 {
                            assert(pre[a] == self.data@[a]);
                            assert(pre[b] == self.data@[b]);
                        } else {
                            assert(pre[a] == self.data@[a]);
                            if self.data@[a].0@ == path@ {
                                lemma_kv_map_props(pre);
                            }
                        }
                    }
                }
                Ok(ret)
            },
        }
    }

    /// Returns the handle stored under the key; on a miss, runs the
    /// loader once and caches a successful result.  A cached entry
    /// always wins, and the loader is then not run.
    pub fn load<F: FnOnce(&String) -> Result<T, String>>(&mut self, path: &String, loader: F) -> (r:
        Result<Rc<T>, StorageError>)
        requires
            old(self).wf(),
            call_requires(loader, (path,)),
        ensures
            final(self).wf(),
            old(self).view_map().dom().contains(path@) ==> (r matches Ok(h) && h == old(
                self,
            ).view_map()[path@] && *final(self) == *old(self)),
            !old(self).view_map().dom().contains(path@) ==> match r {
                Ok(h) => {
                    &&& exists|d: T|
                        call_ensures(loader, (path,), Result::<T, String>::Ok(d)) && h == d
                    &&& final(self).view_map() == old(self).view_map().insert(path@, h)
                },
                Err(e) => {
                    &&& e matches StorageError::Error(m) && call_ensures(
                        loader,
                        (path,),
                        Result::<T, String>::Err(m),
                    )
                    &&& *final(self) == *old(self)
                },
            },
    {
        let found = self.find(path);
        match found {
            Some(i) => {
                proof {
                    lemma_kv_map_props(self.data@);
                }
                Ok(self.data[i].1.clone())
            },
            None => {
                let loaded = loader(path);
                let data = match loaded {
                    Ok(d) => d,
                    Err(m) => {
                        return Err(StorageError::Error(m));
                    },
                };
                let handle = Rc::new(data);
                let ret = handle.clone();
                let ghost pre = self.data@;
                self.data.push((path.clone(), handle));
                proof {
                    lemma_kv_map_props(pre);
                    lemma_kv_map_push(pre, self.data@.last());
                    assert(self.data@ =~= pre.push(self.data@.last()));
                    assert(self.data@.drop_last() =~= pre);
                    assert forall|a: int, b: int|
                        0 <= a < b < self.data@.len() implies (#[trigger] self.data@[a]).0@ != (
                    #[trigger] self.data@[b]).0@ by {
                        if b < self.data@.len() - 1 {
                            assert(pre[a] == self.data@[a]);
                            assert(pre[b] == self.data@[b]);
                        } else {
                            assert(pre[a] == self.data@[a]);
                            if self.data@[a].0@ == path@ {
                                lemma_kv_map_props(pre);
                            }
                        }
                    }
                }
                Ok(ret)
            },
        }
    }

    /// Whether a value is stored under the key.
    pub fn has(&self, path: &String) -> (r: bool)
        requires
            self.wf(),
        ensures
            r == self.view_map().dom().contains(path@),
    {
        let found = self.find(path);
        proof {
            lemma_kv_map_props(self.data@);
        }
        found.is_some()
    }

    /// A handle to the value stored under the key, if any.
    pub fn get(&self, path: &String) -> (r: Option<Rc<T>>)
        requires
            self.wf(),
        ensures
            match r {
                Some(h) => self.view_map().dom().contains(path@) && h == self.view_map()[path@],
                None => !self.view_map().dom().contains(path@),
            },
    {
        let found = self.find(path);
        match found {
            Some(i) => {
                proof {
                    lemma_kv_map_props(self.data@);
                }
                Some(self.data[i].1.clone())
            },
            None => None,
        }
    }

    /// Removes and returns the value stored under the key, if any.
    pub fn drop(&mut self, path: &String) -> (r: Option<Rc<T>>)
        requires
            old(self).wf(),
        ensures
            final(self).wf(),
            match r {
                Some(h) => {
                    &&& old(self).view_map().dom().contains(path@)
                    &&& h == old(self).view_map()[path@]
                    &&& final(self).view_map() == old(self).view_map().remove(path@)
                },
                None => {
                    &&& !old(self).view_map().dom().contains(path@)
                    &&& *final(self) == *old(self)
                },
            },
    {
        let found = self.find(path);
        match found {
            Some(i) => {
                proof {
                    lemma_kv_map_props(self.data@);
                    lemma_kv_map_remove(self.data@, i as int);
                }
                let ghost pre = self.data@;
                let entry = self.data.remove(i);
                proof {
                    assert forall|a: int, b: int|
                        0 <= a < b < self.data@.len() implies (#[trigger] self.data@[a]).0@ != (
                    #[trigger] self.data@[b]).0@ by {
                        let a0: int = if a < i { a } else { a + 1 };
                        let b0: int = if b < i { b } else { b + 1 };
                        assert(self.data@[a] == pre[a0]);
                        assert(self.data@[b] == pre[b0]);
                    }
                }
                Some(entry.1)
            },
            None => None,
        }
    }

    /// Empties the cache.
    pub fn clear(&mut self)
        ensures
            final(self).wf(),
            final(self).view_map() == Map::<Seq<char>, Rc<T>>::empty(),
    {
        self.data.clear();
        proof {
            assert(self.view_map() =~= Map::<Seq<char>, Rc<T>>::empty());
        }
    }
}

} // verus!
