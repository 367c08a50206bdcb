//! Selection of manifest files out of a directory walk. The walk itself is
//! filesystem work done outside the library; it hands over one entry per
//! reachable filesystem object, and this module decides which entries the
//! cleanup command is dispatched against.

use vstd::prelude::*;

verus! {

/// The file-type tag of one filesystem object.
#[derive(Clone, Copy, Debug, PartialEq, Eq, Structural)]
pub enum EntryKind {
    File,
    Dir,
    Symlink,
}

/// One filesystem object met during the walk: its path, its base name, its
/// type, and its depth in directory levels below the walk's root.
#[derive(Debug)]
pub struct DirectoryEntry {
    pub path: String,
    pub name: String,
    pub kind: EntryKind,
    pub depth: usize,
}

impl Clone for DirectoryEntry {
    fn clone(&self) -> (r: Self)
        ensures
            r == *self,
    {
        DirectoryEntry {
            path: self.path.clone(),
            name: self.name.clone(),
            kind: self.kind,
            depth: self.depth,
        }
    }
}

/// A base name counts as a manifest in exactly the two conventional
/// casings; nothing else, however close, qualifies.
pub open spec fn is_manifest_name_spec(s: Seq<char>) -> bool {
    s == "Cargo.toml"@ || s == "cargo.toml"@
}

/// An entry is dispatched against iff it is a regular file, its base name
/// is a manifest name, and it lies within the depth bound (absent bound
/// means unbounded).
pub open spec fn entry_selected(e: DirectoryEntry, max_depth: Option<usize>) -> bool {
    &&& e.kind is File
    &&& is_manifest_name_spec(e.name@)
    &&& match max_depth {
        Some(d) => e.depth <= d,
        None => true,
    }
}

/// The subsequence of entries that qualify, in walk order.
pub open spec fn selected_entries(s: Seq<DirectoryEntry>, max_depth: Option<usize>) -> Seq<
    DirectoryEntry,
>
    decreases s.len(),
{
    if s.len() == 0 {
        Seq::empty()
    } else {
        let rest = selected_entries(s.drop_last(), max_depth);
        if entry_selected(s.last(), max_depth) {
            rest.push(s.last())
        } else {
            rest
        }
    }
}

/// Decides whether a base name is one of the two accepted manifest
/// casings.
pub fn is_manifest_name(name: &String) -> (r: bool)
    ensures
        r == is_manifest_name_spec(name@),
{
    let exact: String = "Cargo.toml".to_owned();
    let lower: String = "cargo.toml".to_owned();
    *name == exact || *name == lower
}

/// Filters a walk down to the entries the cleanup command is dispatched
/// against.
pub fn select_manifests(entries: &Vec<DirectoryEntry>, max_depth: Option<usize>) -> (r: Vec<
    DirectoryEntry,
>)
    ensures
        r@ == selected_entries(entries@, max_depth),
{
    let mut out: Vec<DirectoryEntry> = Vec::new();
    let n = entries.len();
    let mut i: usize = 0;
    while i < n
        invariant
            n == entries@.len(),
            0 <= i <= n,
            out@ == selected_entries(entries@.subrange(0, i as int), max_depth),
        decreases n - i,
    {
        let e = &entries[i];
        let mut keep = match e.kind {
            EntryKind::File => is_manifest_name(&e.name),
            EntryKind::Dir => false,
            EntryKind::Symlink => false,
        };
        if keep {
            keep = match max_depth {
                Some(d) => e.depth <= d,
                None => true,
            };
        }
        if keep {
            out.push(e.clone());
        }
        proof {
            assert(entries@.subrange(0, i + 1).drop_last() =~= entries@.subrange(0, i as int));
            assert(entries@.subrange(0, i + 1).last() == entries@[i as int]);
        }
        i += 1;
    }
    proof {
        assert(entries@.subrange(0, n as int) =~= entries@);
    }
    out
}

/// Depth bound: with a maximum depth in force, no selected entry lies
/// deeper than it.
pub proof fn lemma_selected_depth_bounded(s: Seq<DirectoryEntry>, d: usize)
    ensures
        forall|k: int|
            0 <= k < selected_entries(s, Some(d)).len() ==> #[trigger] selected_entries(
                s,
                Some(d),
            )[k].depth <= d,
    decreases s.len(),
{
    if s.len() > 0 {
        lemma_selected_depth_bounded(s.drop_last(), d);
    }
}

} // verus!
