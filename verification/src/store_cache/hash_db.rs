//! The set of hashes whose contents the store holds.
use vstd::prelude::*;
use crate::paths::{file_stem, file_stem_of};

verus! {

/// `dashmap::DashSet`, a concurrent hash set.
#[verifier::external_type_specification]
#[verifier::external_body]
#[verifier::reject_recursive_types(K)]
#[verifier::reject_recursive_types(S)]
pub struct ExDashSet<K, S>(dashmap::DashSet<K, S>);

/// The strings a `DashSet` holds.
pub uninterp spec fn dash_set_contents(s: dashmap::DashSet<String>) -> Set<Seq<char>>;

/// Calls `dashmap::DashSet::new`. Claimed: the new set is empty.
#[verifier::external_body]
fn new_dash_set() -> (r: dashmap::DashSet<String>)
    ensures
        dash_set_contents(r) == Set::<Seq<char>>::empty(),
{
    dashmap::DashSet::new()
}

/// Calls `dashmap::DashSet::insert`. Claimed, as its documentation says: the
/// string is in the set afterwards, nothing else changes, and the call returns
/// whether it was absent before.
#[verifier::external_body]
fn dash_set_insert(s: &mut dashmap::DashSet<String>, item: String) -> (r: bool)
    ensures
        r == !dash_set_contents(*old(s)).contains(item@),
        dash_set_contents(*final(s)) == dash_set_contents(*old(s)).insert(item@),
{
    s.insert(item)
}

/// Calls `dashmap::DashSet::remove`. Claimed, as its documentation says: the
/// string is not in the set afterwards, nothing else changes, and the call
/// returns whether it was there.
#[verifier::external_body]
fn dash_set_remove(s: &mut dashmap::DashSet<String>, item: &str) -> (r: bool)
    ensures
        r == dash_set_contents(*old(s)).contains(item@),
        dash_set_contents(*final(s)) == dash_set_contents(*old(s)).remove(item@),
{
    s.remove(item).is_some()
}

/// Calls `dashmap::DashSet::contains`. Claimed: it tells whether the string is in the set.
#[verifier::external_body]
fn dash_set_contains(s: &dashmap::DashSet<String>, item: &str) -> (r: bool)
    ensures
        r == dash_set_contents(*s).contains(item@),
{
    s.contains(item)
}

/// Calls `IntoIterator::into_iter` on a `DashSet` and collects the strings.
/// Claimed: each string of the set comes out exactly once, in an order the
/// claim leaves open.
#[verifier::external_body]
fn dash_set_into_vec(s: dashmap::DashSet<String>) -> (r: Vec<String>)
    ensures
        forall|i: int, j: int| 0 <= i < j < r@.len() ==> r@[i]@ != r@[j]@,
        forall|x: Seq<char>| dash_set_contents(s).contains(x) <==> exists|i: int| 0 <= i < r@.len() && #[trigger] r@[i]@ == x,
{
    s.into_iter().collect()
}

/// The hashes of the contents held in the store.
pub struct HashDB {
    inner: dashmap::DashSet<String>,
}

/// The stems of the file names of `paths`, skipping paths without a file name.
pub open spec fn path_stems(paths: Seq<Seq<char>>) -> Set<Seq<char>> {
    Set::new(|s: Seq<char>| exists|i: int| 0 <= i < paths.len() && #[trigger] file_stem(paths[i]) == Some(s))
}

impl HashDB {
    /// The hashes held.
    pub closed spec fn contents(&self) -> Set<Seq<char>> {
        dash_set_contents(self.inner)
    }

    /// A database holding the strings of `inner`.
    pub fn new(inner: dashmap::DashSet<String>) -> (r: Self)
        ensures
            r.contents() == dash_set_contents(inner),
    {
        HashDB { inner }
    }

    /// A database holding nothing.
    pub fn empty() -> (r: Self)
        ensures
            r.contents() == Set::<Seq<char>>::empty(),
    {
        HashDB { inner: new_dash_set() }
    }

    /// Adds the hashes named by the files of the store's data folder: the stem
    /// of each file's name.
    pub fn update_hash_set_with_cache_contents(self, cache_files: &Vec<String>) -> (r: Self)
        ensures
            r.contents() == self.contents().union(path_stems(crate::paths::string_views(cache_files@))),
    {
        let ghost paths = crate::paths::string_views(cache_files@);
        let mut db = self;
        let ghost start = db.contents();
        let mut i: usize = 0;
        while i < cache_files.len()
            invariant
                i <= cache_files@.len(),
                paths == crate::paths::string_views(cache_files@),
                db.contents() == start.union(path_stems(paths.take(i as int))),
            decreases cache_files@.len() - i,
        {
            let stem = file_stem_of(cache_files[i].as_str());
            let ghost before = db.contents();
            proof {
                assert(paths[i as int] == cache_files@[i as int]@);
            }
            match stem {
                Some(s) => {
                    db.insert(s);
                },
                None => {},
            }
            proof {
                let next = paths.take(i + 1);
                assert forall|x: Seq<char>| #[trigger] path_stems(next).contains(x) <==> (
                path_stems(paths.take(i as int)).contains(x) || file_stem(paths[i as int]) == Some(x)) by {
                    if path_stems(next).contains(x) {
                        let k = choose|k: int| 0 <= k < next.len() && #[trigger] file_stem(next[k]) == Some(x);
                        if k < i {
                            assert(file_stem(paths.take(i as int)[k]) == Some(x));
                        }
                    }
                    if path_stems(paths.take(i as int)).contains(x) {
                        let k = choose|k: int| 0 <= k < i && #[trigger] file_stem(paths.take(i as int)[k]) == Some(x);
                        assert(file_stem(next[k]) == Some(x));
                    }
                    if file_stem(paths[i as int]) == Some(x) {
                        assert(file_stem(next[i as int]) == Some(x));
                    }
                }
                assert(db.contents() =~= start.union(path_stems(next)));
            }
            i = i + 1;
        }
        proof {
            assert(paths.take(cache_files@.len() as int) =~= paths);
        }
        db
    }

    /// Adds a hash; returns whether it was new.
    pub fn insert(&mut self, hash: String) -> (r: bool)
        ensures
            r == !old(self).contents().contains(hash@),
            final(self).contents() == old(self).contents().insert(hash@),
    {
        dash_set_insert(&mut self.inner, hash)
    }

    /// Forgets a hash, as when its contents could not be written; returns
    /// whether it was held.
    pub fn remove(&mut self, hash: &str) -> (r: bool)
        ensures
            r == old(self).contents().contains(hash@),
            final(self).contents() == old(self).contents().remove(hash@),
    {
        dash_set_remove(&mut self.inner, hash)
    }

    /// Whether a hash is held.
    pub fn contains(&self, hash: &str) -> (r: bool)
        ensures
            r == self.contents().contains(hash@),
    {
        dash_set_contains(&self.inner, hash)
    }

    /// Every hash held, each once.
    pub fn into_hashset(self) -> (r: Vec<String>)
        ensures
            forall|i: int, j: int| 0 <= i < j < r@.len() ==> r@[i]@ != r@[j]@,
            forall|x: Seq<char>| self.contents().contains(x) <==> exists|i: int| 0 <= i < r@.len() && #[trigger] r@[i]@ == x,
    {
        dash_set_into_vec(self.inner)
    }
}

} // verus!
