//! What the composition reads from the host, gathered beforehand as plain
//! values: which paths exist, what some directories hold, and a few files.

use crate::metadata::lookup;
use crate::text::{same_text, texts};
use vstd::prelude::*;

verus! {

/// The regular files (not directories) directly inside a directory, in the
/// order the directory was read.
#[derive(Debug, Clone, PartialEq, Eq)]
pub struct DirListing {
    pub path: String,
    pub files: Vec<String>,
}

/// One entry of the runtime's `etc` directory.
#[derive(Debug, Clone, PartialEq, Eq)]
pub struct EtcEntry {
    pub name: String,
    /// Where the entry points, when it is a symbolic link.
    pub link_target: Option<String>,
}

#[derive(Debug, Clone, PartialEq, Eq)]
pub struct HostSnapshot {
    /// Paths known to exist; any other path is taken as absent.
    pub existing: Vec<String>,
    /// Directories that exist, with their files; any other one is taken as absent.
    pub listings: Vec<DirListing>,
    /// The host GPU driver's version file, when it could be read.
    pub gl_driver: Option<String>,
    /// Names of the entries of the host's `/`.
    pub root_entries: Vec<String>,
    /// Names of the entries of the host's `/run` that still existed when checked.
    pub run_entries: Vec<String>,
    /// The entries of the runtime's `files/etc`.
    pub runtime_etc: Vec<EtcEntry>,
    /// The user's home directory, when known.
    pub home: Option<String>,
}

pub open spec fn listings_view(l: Seq<DirListing>) -> Seq<(Seq<char>, Seq<Seq<char>>)> {
    l.map_values(|d: DirListing| (d.path@, texts(d.files@)))
}

impl HostSnapshot {
    pub open spec fn has_path(&self, p: Seq<char>) -> bool {
        texts(self.existing@).contains(p)
    }

    /// The files of directory `p`, or `None` when it is absent.
    pub open spec fn listing(&self, p: Seq<char>) -> Option<Seq<Seq<char>>> {
        lookup(listings_view(self.listings@), p)
    }

    /// The files of directory `dir`, or `None` when it is absent.
    pub fn find_listing(&self, dir: &str) -> (r: Option<&Vec<String>>)
        ensures
            match r {
                Some(v) => self.listing(dir@) == Some(texts(v@)),
                None => self.listing(dir@) is None,
            },
    {
        let ghost all = listings_view(self.listings@);
        let mut i: usize = 0;
        assert(all.skip(0) == all);
        while i < self.listings.len()
            invariant
                i <= self.listings@.len(),
                all == listings_view(self.listings@),
                lookup(all, dir@) == lookup(all.skip(i as int), dir@),
            decreases self.listings@.len() - i,
        {
            assert(all.skip(i as int)[0] == (self.listings@[i as int].path@, texts(self.listings@[i as int].files@)));
            assert(all.skip(i as int).skip(1) == all.skip(i + 1));
            if same_text(self.listings[i].path.as_str(), dir) {
                return Some(&self.listings[i].files);
            }
            i = i + 1;
        }
        None
    }
}

} // verus!
