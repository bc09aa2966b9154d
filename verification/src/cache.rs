//! The outline cache: outlines remembered by path and checked by mtime.

use dashmap::DashMap;
use vstd::prelude::*;

verus! {

/// One remembered outline, with the mtime of the file it was made from.
pub struct CacheEntry {
    pub mtime: u64,
    pub outline: String,
}

/// What the cache knows of one path: the mtime and the outline.
pub struct Cached {
    pub mtime: u64,
    pub outline: Seq<char>,
}

/// The entries that a map of outlines holds, by path.
pub uninterp spec fn cached_outlines(map: DashMap<String, CacheEntry>) -> Map<
    Seq<char>,
    CacheEntry,
>;

/// Calls `DashMap::new`. Claimed: the new map holds nothing.
#[verifier::external_body]
fn new_outline_map() -> (fresh: DashMap<String, CacheEntry>)
    ensures
        cached_outlines(fresh) == (Map::<Seq<char>, CacheEntry>::empty()),
{
    DashMap::new()
}

/// Calls `DashMap::insert`. Claimed: afterwards the map holds `entry` under
/// `path`, in place of what it held there, and everything else as before.
#[verifier::external_body]
fn store_outline(map: &mut DashMap<String, CacheEntry>, path: String, entry: CacheEntry)
    ensures
        cached_outlines(*final(map)) == cached_outlines(*old(map)).insert(path@, entry),
{
    map.insert(path, entry);
}

/// The outline of an entry, if the entry was made at `mtime`.
pub open spec fn entry_outline(entry: CacheEntry, mtime: u64) -> Option<String> {
    if entry.mtime == mtime {
        Some(entry.outline)
    } else {
        None
    }
}

/// A copy of the outline of an entry, if the entry was made at `mtime`.
fn outline_if(entry: &CacheEntry, mtime: u64) -> (r: Option<String>)
    ensures
        r == entry_outline(*entry, mtime),
{
    if entry.mtime == mtime {
        Some(entry.outline.clone())
    } else {
        None
    }
}

/// Calls `DashMap::view` with `outline_if`. Claimed: `None` if the map holds
/// nothing under `path`, else what `outline_if` gives for the entry held
/// there.
#[verifier::external_body]
fn outline_at(map: &DashMap<String, CacheEntry>, path: &str, mtime: u64) -> (r: Option<
    Option<String>,
>)
    ensures
        r == if cached_outlines(*map).dom().contains(path@) {
            Some(entry_outline(cached_outlines(*map)[path@], mtime))
        } else {
            None
        },
{
    map.view(path, |_, entry| outline_if(entry, mtime))
}

/// Outlines by path, in a concurrent map. An entry answers only for the
/// mtime it was made at.
pub struct OutlineCache {
    entries: DashMap<String, CacheEntry>,
}

impl OutlineCache {
    /// What the cache holds for `path`, if anything.
    pub closed spec fn cached(&self, path: Seq<char>) -> Option<Cached> {
        let held = cached_outlines(self.entries);
        if held.dom().contains(path) {
            Some(Cached { mtime: held[path].mtime, outline: held[path].outline@ })
        } else {
            None
        }
    }

    /// Whether the cache answers for `path` at `mtime` without computing.
    pub open spec fn hits(&self, path: Seq<char>, mtime: u64) -> bool {
        self.cached(path).is_some() && self.cached(path).unwrap().mtime == mtime
    }

    /// An empty cache.
    pub fn new() -> (cache: OutlineCache)
        ensures
            forall|p: Seq<char>| cache.cached(p).is_none(),
    {
        OutlineCache { entries: new_outline_map() }
    }

    /// The outline held for `path`, if it was made at `mtime`.
    pub fn lookup(&self, path: &str, mtime: u64) -> (r: Option<String>)
        ensures
            r.is_some() == self.hits(path@, mtime),
            r.is_some() ==> r.unwrap()@ == self.cached(path@).unwrap().outline,
    {
        match outline_at(&self.entries, path, mtime) {
            Some(found) => found,
            None => None,
        }
    }

    /// Remembers `outline` for `path` as of `mtime`, in place of what was held
    /// for `path` before.
    pub fn store(&mut self, path: &str, mtime: u64, outline: String)
        ensures
            final(self).cached(path@) == Some(Cached { mtime, outline: outline@ }),
            forall|p: Seq<char>| p != path@ ==> final(self).cached(p) == old(self).cached(p),
    {
        store_outline(&mut self.entries, path.to_owned(), CacheEntry { mtime, outline });
    }

    /// The outline of the file at `path` as of `mtime`.
    ///
    /// If the cache holds an outline for `path` made at `mtime`, that outline
    /// is returned and `compute` is not called; it need not even be callable.
    /// Otherwise `compute` is called, and its result is returned and
    /// remembered for `path` and `mtime` in place of what was held before.
    /// Either way the cache then holds the outline for `path` at `mtime`, so
    /// that the next call for them computes nothing and returns the same.
    pub fn get_or_compute<F: FnOnce() -> String>(&mut self, path: &str, mtime: u64, compute: F) -> (outline:
        String)
        requires
            !old(self).hits(path@, mtime) ==> compute.requires(()),
        ensures
            old(self).hits(path@, mtime) ==> outline@ == old(self).cached(path@).unwrap().outline
                && forall|p: Seq<char>| final(self).cached(p) == old(self).cached(p),
            !old(self).hits(path@, mtime) ==> compute.ensures((), outline) && final(self).cached(
                path@,
            ) == Some(Cached { mtime, outline: outline@ }) && forall|p: Seq<char>|
                p != path@ ==> final(self).cached(p) == old(self).cached(p),
            final(self).hits(path@, mtime),
            final(self).cached(path@).unwrap().outline == outline@,
    {
        match self.lookup(path, mtime) {
            Some(outline) => outline,
            None => {
                let outline = compute();
                self.store(path, mtime, outline.clone());
                outline
            },
        }
    }
}

} // verus!
