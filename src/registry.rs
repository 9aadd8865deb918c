//! The registry of staging stores: which file holds each collection's
//! staging tables.

use vstd::prelude::*;
use vstd::string::*;
use crate::text::str_eq;

verus! {

/// The directory, under the application's data directory, that holds one
/// directory per collection.
pub const STAGING_DIR: &'static str = "temp";

/// The name of a collection's staging store file within its directory.
pub const STAGING_FILE: &'static str = "temp_data.sqlite";

/// Recorded paths by collection; a later entry for a collection stands over
/// an earlier one.
pub struct StagingRegistry {
    pub entries: Vec<(String, String)>,
}

/// The path recorded for collection `k`: its last entry.
pub open spec fn path_in(e: Seq<(String, String)>, k: Seq<char>) -> Option<Seq<char>>
    decreases e.len(),
{
    if e.len() == 0 {
        None
    } else if e.last().0@ == k {
        Some(e.last().1@)
    } else {
        path_in(e.drop_last(), k)
    }
}

impl StagingRegistry {
    pub open spec fn path_of_spec(&self, k: Seq<char>) -> Option<Seq<char>> {
        path_in(self.entries@, k)
    }

    /// A registry with no path recorded.
    pub fn new() -> (r: StagingRegistry)
        ensures
            forall|k: Seq<char>| r.path_of_spec(k) is None,
    {
        StagingRegistry { entries: Vec::new() }
    }

    /// The path recorded for a collection.
    pub fn path_of(&self, collection: &str) -> (r: Option<String>)
        ensures
            match r {
                Some(p) => self.path_of_spec(collection@) == Some(p@),
                None => self.path_of_spec(collection@) is None,
            },
    {
        let ghost e = self.entries@;
        let mut i: usize = self.entries.len();
        assert(e.subrange(0, i as int) =~= e);
        while i > 0
            invariant
                e == self.entries@,
                i <= e.len(),
                path_in(e, collection@) == path_in(e.subrange(0, i as int), collection@),
            decreases i,
        {
            assert(e.subrange(0, i as int).drop_last() =~= e.subrange(0, i - 1));
            if str_eq(self.entries[i - 1].0.as_str(), collection) {
                return Some(self.entries[i - 1].1.clone());
            }
            i -= 1;
        }
        None
    }

    /// Records `path` for a collection, replacing any earlier path.
    pub fn record(&mut self, collection: &str, path: &str)
        ensures
            final(self).path_of_spec(collection@) == Some(path@),
            forall|k: Seq<char>| k != collection@ ==> final(self).path_of_spec(k) == old(self).path_of_spec(k),
    {
        self.entries.push((String::from_str(collection), String::from_str(path)));
        assert(self.entries@.drop_last() =~= old(self).entries@);
    }

    /// The path recorded for a collection; when there is none, records
    /// `default_path` and gives it.
    pub fn resolve(&mut self, collection: &str, default_path: &str) -> (r: String)
        ensures
            r@ == match old(self).path_of_spec(collection@) {
                Some(p) => p,
                None => default_path@,
            },
            final(self).path_of_spec(collection@) == Some(r@),
            forall|k: Seq<char>| k != collection@ ==> final(self).path_of_spec(k) == old(self).path_of_spec(k),
    {
        match self.path_of(collection) {
            Some(p) => p,
            None => {
                self.record(collection, default_path);
                String::from_str(default_path)
            },
        }
    }

    /// Forgets a collection's path and gives it back, if one was recorded.
    /// Forgetting a collection with no path is no error and changes nothing.
    pub fn release(&mut self, collection: &str) -> (r: Option<String>)
        ensures
            match r {
                Some(p) => old(self).path_of_spec(collection@) == Some(p@),
                None => old(self).path_of_spec(collection@) is None,
            },
            final(self).path_of_spec(collection@) is None,
            forall|k: Seq<char>| k != collection@ ==> final(self).path_of_spec(k) == old(self).path_of_spec(k),
    {
        let found = self.path_of(collection);
        let ghost e = self.entries@;
        let mut kept: Vec<(String, String)> = Vec::new();
        let mut i: usize = 0;
        while i < self.entries.len()
            invariant
                e == self.entries@,
                i <= e.len(),
                path_in(kept@, collection@) is None,
                forall|k: Seq<char>| k != collection@ ==> path_in(kept@, k) == path_in(e.subrange(0, i as int), k),
            decreases e.len() - i,
        {
            assert(e.subrange(0, i + 1).drop_last() =~= e.subrange(0, i as int));
            if !str_eq(self.entries[i].0.as_str(), collection) {
                let ghost before = kept@;
                let entry = (self.entries[i].0.clone(), self.entries[i].1.clone());
                kept.push(entry);
                assert(kept@.drop_last() =~= before);
                assert(kept@.last() == e[i as int]);
                assert forall|k: Seq<char>| k != collection@ implies path_in(kept@, k) == if e[i as int].0@ == k { Some(e[i as int].1@) } else { path_in(before, k) } by {}
            }
            assert(e.subrange(0, i + 1).last() == e[i as int]);
            assert forall|k: Seq<char>| k != collection@ implies path_in(kept@, k) == path_in(e.subrange(0, i + 1), k) by {
                assert(path_in(e.subrange(0, i + 1), k) == if e[i as int].0@ == k { Some(e[i as int].1@) } else { path_in(e.subrange(0, i as int), k) });
            }
            i += 1;
        }
        assert(e.subrange(0, e.len() as int) =~= e);
        self.entries = kept;
        found
    }
}

} // verus!
