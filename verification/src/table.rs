//! The table of embedded assets: byte blobs keyed by virtual path.

use vstd::prelude::*;
use bevy::asset::{AssetServer, HandleUntyped};
use crate::resolver::InlineAssetIo;
use crate::server::request_untyped;
use crate::text::same_text;

verus! {

/// One registered asset: its virtual path and its bytes.
type Entry = (&'static str, &'static [u8]);

/// The paths of `entries`, in the order in which they stand.
spec fn entry_paths(entries: Seq<Entry>) -> Seq<Seq<char>> {
    Seq::new(entries.len(), |i: int| entries[i].0@)
}

/// Where `path` stands in `entries` (any place that holds it).
spec fn entry_index(entries: Seq<Entry>, path: Seq<char>) -> int {
    choose|i: int| 0 <= i < entries.len() && entries[i].0@ == path
}

/// The mapping that `entries` stand for: its domain is the paths that occur,
/// and a path maps to the bytes registered with it.
spec fn entries_map(entries: Seq<Entry>) -> Map<Seq<char>, Seq<u8>> {
    Map::new(
        |path: Seq<char>| entry_paths(entries).contains(path),
        |path: Seq<char>| entries[entry_index(entries, path)].1@,
    )
}

/// In a sequence without a repeated path, the entry at `i` is the one that
/// the mapping holds for its path.
proof fn lemma_entry_at(entries: Seq<Entry>, i: int)
    requires
        entry_paths(entries).no_duplicates(),
        0 <= i < entries.len(),
    ensures
        entries_map(entries).contains_key(entries[i].0@),
        entries_map(entries)[entries[i].0@] == entries[i].1@,
        entry_index(entries, entries[i].0@) == i,
{
    let paths = entry_paths(entries);
    let path = entries[i].0@;
    assert(paths[i] == path);
    let j = entry_index(entries, path);
    assert(0 <= j < entries.len() && entries[j].0@ == path);
    assert(paths[j] == path);
}

/// A path that no entry holds is outside the mapping.
proof fn lemma_entry_absent(entries: Seq<Entry>, path: Seq<char>)
    requires
        forall|i: int| 0 <= i < entries.len() ==> entries[i].0@ != path,
    ensures
        !entries_map(entries).contains_key(path),
{
    let paths = entry_paths(entries);
    if paths.contains(path) {
        let i = choose|i: int| 0 <= i < paths.len() && paths[i] == path;
        assert(entries[i].0@ == path);
    }
}

/// Appending an entry with a new path inserts it into the mapping.
proof fn lemma_push_entry(entries: Seq<Entry>, entry: Entry)
    requires
        entry_paths(entries).no_duplicates(),
        !entries_map(entries).contains_key(entry.0@),
    ensures
        entry_paths(entries.push(entry)).no_duplicates(),
        entries_map(entries.push(entry)) == entries_map(entries).insert(entry.0@, entry.1@),
{
    let grown = entries.push(entry);
    let paths = entry_paths(entries);
    assert(entry_paths(grown) =~= paths.push(entry.0@));
    assert forall|i: int, j: int|
        0 <= i < grown.len() && 0 <= j < grown.len() && i != j implies entry_paths(grown)[i]
        != entry_paths(grown)[j] by {
        if i < entries.len() {
            assert(paths[i] == entries[i].0@);
            assert(paths.contains(paths[i]));
        }
        if j < entries.len() {
            assert(paths[j] == entries[j].0@);
            assert(paths.contains(paths[j]));
        }
    }
    assert forall|path: Seq<char>|
        entries_map(grown).contains_key(path) <==> #[trigger] entries_map(entries).insert(
            entry.0@,
            entry.1@,
        ).contains_key(path) by {
        if entry_paths(grown).contains(path) {
            let i = choose|i: int| 0 <= i < grown.len() && entry_paths(grown)[i] == path;
            if i < entries.len() {
                assert(paths[i] == path);
            }
        }
        if paths.contains(path) {
            let i = choose|i: int| 0 <= i < paths.len() && paths[i] == path;
            assert(entry_paths(grown)[i] == path);
        }
        if path == entry.0@ {
            assert(entry_paths(grown)[entries.len() as int] == path);
        }
    }
    assert forall|path: Seq<char>| #[trigger]
        entries_map(grown).contains_key(path) implies entries_map(grown)[path] == entries_map(
        entries,
    ).insert(entry.0@, entry.1@)[path] by {
        let i = choose|i: int| 0 <= i < grown.len() && entry_paths(grown)[i] == path;
        assert(grown[i].0@ == path);
        lemma_entry_at(grown, i);
        if i < entries.len() {
            assert(entries[i] == grown[i]);
            lemma_entry_at(entries, i);
        }
    }
    assert(entries_map(grown) =~= entries_map(entries).insert(entry.0@, entry.1@));
}

/// Replacing the bytes of the entry at `i`, under the same path, overwrites
/// that path in the mapping.
proof fn lemma_replace_entry(entries: Seq<Entry>, i: int, entry: Entry)
    requires
        entry_paths(entries).no_duplicates(),
        0 <= i < entries.len(),
        entries[i].0@ == entry.0@,
    ensures
        entry_paths(entries.update(i, entry)) == entry_paths(entries),
        entries_map(entries.update(i, entry)) == entries_map(entries).insert(entry.0@, entry.1@),
{
    let changed = entries.update(i, entry);
    assert(entry_paths(changed) =~= entry_paths(entries));
    lemma_entry_at(entries, i);
    assert forall|path: Seq<char>| #[trigger]
        entries_map(changed).contains_key(path) implies entries_map(changed)[path] == entries_map(
        entries,
    ).insert(entry.0@, entry.1@)[path] by {
        let j = choose|j: int| 0 <= j < changed.len() && entry_paths(changed)[j] == path;
        assert(changed[j].0@ == path);
        lemma_entry_at(changed, j);
        assert(entry_paths(entries)[j] == entries[j].0@);
        assert(entry_paths(entries)[i] == entries[i].0@);
        if j != i {
            lemma_entry_at(entries, j);
        }
    }
    assert(entries_map(changed) =~= entries_map(entries).insert(entry.0@, entry.1@));
}

/// The mapping of a sequence without a repeated path has one key for each entry.
proof fn lemma_entries_count(entries: Seq<Entry>)
    requires
        entry_paths(entries).no_duplicates(),
    ensures
        entries_map(entries).dom() == entry_paths(entries).to_set(),
        entries_map(entries).dom().finite(),
        entries_map(entries).len() == entries.len(),
{
    let paths = entry_paths(entries);
    assert(entries_map(entries).dom() =~= paths.to_set());
    paths.unique_seq_to_set();
}

/// The paths of `handles`, in the order in which they stand.
pub open spec fn handle_paths(handles: Seq<(&'static str, HandleUntyped)>) -> Seq<Seq<char>> {
    Seq::new(handles.len(), |i: int| handles[i].0@)
}

/// What one registration of `data` under `path` makes of a table: the
/// mapping gets `data` at `path`, over whatever stood there, and a path that
/// was not registered joins the paths at their end.
pub open spec fn registered(
    before: InlineAssets,
    after: InlineAssets,
    path: Seq<char>,
    data: Seq<u8>,
) -> bool {
    &&& after@ == before@.insert(path, data)
    &&& after.paths() == if before@.contains_key(path) {
        before.paths()
    } else {
        before.paths().push(path)
    }
}

/// The embedded assets: each registered path with the bytes that stand for it.
pub struct InlineAssets {
    assets: Vec<Entry>,
}

impl View for InlineAssets {
    type V = Map<Seq<char>, Seq<u8>>;

    closed spec fn view(&self) -> Map<Seq<char>, Seq<u8>> {
        entries_map(self.assets@)
    }
}

impl InlineAssets {
    /// No path is registered twice.
    #[verifier::type_invariant]
    pub closed spec fn wf(&self) -> bool {
        entry_paths(self.assets@).no_duplicates()
    }

    /// The registered paths, in the order of their first registration.
    pub closed spec fn paths(&self) -> Seq<Seq<char>> {
        entry_paths(self.assets@)
    }

    /// An empty table.
    pub fn new() -> (r: Self)
        ensures
            r@ == Map::<Seq<char>, Seq<u8>>::empty(),
            r.paths() == Seq::<Seq<char>>::empty(),
    {
        let r = InlineAssets { assets: Vec::new() };
        proof {
            assert(entry_paths(r.assets@) =~= Seq::<Seq<char>>::empty());
            assert(entries_map(r.assets@) =~= Map::<Seq<char>, Seq<u8>>::empty());
        }
        r
    }

    /// The number of registered paths.
    pub fn len(&self) -> (r: usize)
        ensures
            self@.dom().finite(),
            r == self@.len(),
            r == self.paths().len(),
    {
        proof {
            use_type_invariant(self);
            lemma_entries_count(self.assets@);
        }
        self.assets.len()
    }

    /// The place of `path` among the entries, if it is registered.
    fn position(&self, path: &str) -> (r: Option<usize>)
        ensures
            match r {
                Some(i) => i < self.assets@.len() && self.assets@[i as int].0@ == path@,
                None => forall|i: int| 0 <= i < self.assets@.len() ==> self.assets@[i].0@ != path@,
            },
    {
        let mut i: usize = 0;
        while i < self.assets.len()
            invariant
                i <= self.assets@.len(),
                forall|k: int| 0 <= k < i ==> self.assets@[k].0@ != path@,
            decreases self.assets@.len() - i,
        {
            if same_text(self.assets[i].0, path) {
                return Some(i);
            }
            i += 1;
        }
        None
    }

    /// The bytes registered under `path`, if any.
    pub fn lookup(&self, path: &str) -> (r: Option<&'static [u8]>)
        ensures
            match r {
                Some(bytes) => self@.contains_key(path@) && bytes@ == self@[path@],
                None => !self@.contains_key(path@),
            },
    {
        proof {
            use_type_invariant(self);
        }
        match self.position(path) {
            Some(i) => {
                proof {
                    lemma_entry_at(self.assets@, i as int);
                }
                Some(self.assets[i].1)
            },
            None => {
                proof {
                    lemma_entry_absent(self.assets@, path@);
                }
                None
            },
        }
    }

    /// Registers `data` under `path`. A path that is registered already keeps
    /// its place and gets the new bytes.
    pub fn add(&mut self, path: &'static str, data: &'static [u8]) -> (r: &mut Self)
        ensures
            registered(*old(self), *r, path@, data@),
            *final(self) == *final(r),
    {
        proof {
            use_type_invariant(&*self);
        }
        let found = self.position(path);
        let mut entries: Vec<Entry> = Vec::new();
        core::mem::swap(&mut self.assets, &mut entries);
        match found {
            Some(i) => {
                proof {
                    lemma_entry_at(entries@, i as int);
                    lemma_replace_entry(entries@, i as int, (path, data));
                }
                entries.set(i, (path, data));
            },
            None => {
                proof {
                    lemma_entry_absent(entries@, path@);
                    lemma_push_entry(entries@, (path, data));
                    assert(entry_paths(entries@.push((path, data))) =~= entry_paths(
                        entries@,
                    ).push(path@));
                }
                entries.push((path, data));
            },
        }
        core::mem::swap(&mut self.assets, &mut entries);
        self
    }

    /// Requests an untyped load of every registered path from `asset_server`,
    /// once each and in the order of registration, and pairs each path with
    /// the handle that came back.
    pub fn load_all(&self, asset_server: &AssetServer) -> (r: Vec<(&'static str, HandleUntyped)>)
        ensures
            handle_paths(r@) == self.paths(),
            handle_paths(r@).no_duplicates(),
            handle_paths(r@).to_set() == self@.dom(),
            self@.dom().finite(),
            r@.len() == self@.len(),
    {
        proof {
            use_type_invariant(self);
            lemma_entries_count(self.assets@);
        }
        let mut handles: Vec<(&'static str, HandleUntyped)> = Vec::new();
        let mut i: usize = 0;
        while i < self.assets.len()
            invariant
                i <= self.assets@.len(),
                handles@.len() == i,
                forall|k: int| 0 <= k < i ==> handles@[k].0@ == self.assets@[k].0@,
            decreases self.assets@.len() - i,
        {
            let path: &'static str = self.assets[i].0;
            let handle = request_untyped(asset_server, path);
            handles.push((path, handle));
            i += 1;
        }
        proof {
            assert(handle_paths(handles@) =~= entry_paths(self.assets@));
        }
        handles
    }

    /// The provider side of this table: a copy of it, to serve loads from.
    /// Later changes to this table do not reach the copy.
    pub fn io(&self) -> (r: InlineAssetIo)
        ensures
            r@ == self@,
    {
        proof {
            use_type_invariant(self);
        }
        let mut entries: Vec<Entry> = Vec::new();
        let mut i: usize = 0;
        while i < self.assets.len()
            invariant
                i <= self.assets@.len(),
                entries@ == self.assets@.take(i as int),
            decreases self.assets@.len() - i,
        {
            entries.push(self.assets[i]);
            proof {
                assert(self.assets@.take(i as int).push(self.assets@[i as int])
                    =~= self.assets@.take(i + 1));
            }
            i += 1;
        }
        proof {
            assert(self.assets@.take(i as int) =~= self.assets@);
        }
        InlineAssetIo::new(InlineAssets { assets: entries })
    }
}

} // verus!
