//! The lockfile: what was installed, from where, with which checksum.
use crate::error::{cat2, cat3, lit, string_views, ApsError};
use crate::text::{
    chars_of, ends_with, has_prefix, has_suffix, join_from, join_with, lines, lines_of,
    slice_copy, split_on_str, split_str, starts_with, string_of, strip_all_prefix, trim,
    trim_all, trim_chars, trim_each, trim_start_matches, views, occurs, is_ws, trim_start,
    trim_end, lemma_split_join_comma, decimal, decimal_text,
};
use crate::paths::{join, join_paths, parent, parent_of};
use vstd::prelude::*;

verus! {

/// Default lockfile filename
pub const LOCKFILE_NAME: &'static str = "aps.lock.yaml";

/// Filename of lockfiles written by earlier versions
pub const LEGACY_LOCKFILE_NAME: &'static str = "aps.manifest.lock";

/// A moment in UTC: seconds since the Unix epoch and nanoseconds within the second.
#[derive(Debug, Clone, Copy, PartialEq, Eq)]
pub struct Timestamp {
    pub seconds: i64,
    pub nanos: u32,
}

/// The current time (`chrono::Utc::now`). Nothing is claimed of it.
#[verifier::external_body]
pub(crate) fn current_timestamp() -> (r: Timestamp) {
    let now = chrono::Utc::now();
    Timestamp { seconds: now.timestamp(), nanos: now.timestamp_subsec_nanos() }
}

/// Where a locked entry came from: one source, or several merged ones.
#[derive(Debug, Clone, PartialEq)]
pub enum LockedSource {
    /// One source (git URL, filesystem path)
    Simple(String),
    /// Several files merged into one
    Composite(Vec<String>),
}

impl LockedSource {
    /// A single source.
    pub fn simple(s: &str) -> (r: LockedSource)
        ensures
            r matches LockedSource::Simple(x) && x@ == s@,
    {
        LockedSource::Simple(String::from_str(s))
    }

    /// Several merged sources.
    pub fn composite(sources: Vec<String>) -> (r: LockedSource)
        ensures
            r == LockedSource::Composite(sources),
    {
        LockedSource::Composite(sources)
    }

    /// Whether several sources were merged.
    pub fn is_composite(&self) -> (r: bool)
        ensures
            r == (*self is Composite),
    {
        match self {
            LockedSource::Composite(_) => true,
            LockedSource::Simple(_) => false,
        }
    }
}

/// What was installed for one manifest entry.
#[derive(Debug, Clone)]
pub struct LockedEntry {
    /// Where the content came from
    pub source: LockedSource,
    /// Destination path
    pub dest: String,
    /// Resolved git ref, for git sources
    pub resolved_ref: Option<String>,
    /// Git commit SHA, for git sources
    pub commit: Option<String>,
    /// When the entry was last installed
    pub last_updated_at: Timestamp,
    /// Content checksum
    pub checksum: String,
    /// Whether the destination is a symlink (filesystem sources)
    pub is_symlink: bool,
    /// What the symlink points to
    pub target_path: Option<String>,
    /// Items symlinked one by one
    pub symlinked_items: Vec<String>,
}

impl LockedEntry {
    /// A locked entry for a filesystem source, stamped with the current time.
    pub fn new_filesystem(
        source: &str,
        dest: &str,
        checksum: String,
        is_symlink: bool,
        target_path: Option<String>,
        symlinked_items: Vec<String>,
    ) -> (r: LockedEntry)
        ensures
            r.source matches LockedSource::Simple(s) && s@ == source@,
            r.dest@ == dest@,
            r.resolved_ref is None,
            r.commit is None,
            r.checksum == checksum,
            r.is_symlink == is_symlink,
            r.target_path == target_path,
            r.symlinked_items == symlinked_items,
    {
        LockedEntry {
            source: LockedSource::simple(source),
            dest: String::from_str(dest),
            resolved_ref: None,
            commit: None,
            last_updated_at: current_timestamp(),
            checksum,
            is_symlink,
            target_path,
            symlinked_items,
        }
    }

    /// A locked entry for a git source, stamped with the current time.
    pub fn new_git(
        source: &str,
        dest: &str,
        resolved_ref: String,
        commit: String,
        checksum: String,
    ) -> (r: LockedEntry)
        ensures
            r.source matches LockedSource::Simple(s) && s@ == source@,
            r.dest@ == dest@,
            r.resolved_ref == Some(resolved_ref),
            r.commit == Some(commit),
            r.checksum == checksum,
            !r.is_symlink,
            r.target_path is None,
            r.symlinked_items@.len() == 0,
    {
        LockedEntry {
            source: LockedSource::simple(source),
            dest: String::from_str(dest),
            resolved_ref: Some(resolved_ref),
            commit: Some(commit),
            last_updated_at: current_timestamp(),
            checksum,
            is_symlink: false,
            target_path: None,
            symlinked_items: Vec::new(),
        }
    }

    /// A locked entry for several merged sources, stamped with the current time.
    pub fn new_composite(sources: Vec<String>, dest: &str, checksum: String) -> (r: LockedEntry)
        ensures
            r.source == LockedSource::Composite(sources),
            r.dest@ == dest@,
            r.resolved_ref is None,
            r.commit is None,
            r.checksum == checksum,
            !r.is_symlink,
            r.target_path is None,
            r.symlinked_items@.len() == 0,
    {
        LockedEntry {
            source: LockedSource::composite(sources),
            dest: String::from_str(dest),
            resolved_ref: None,
            commit: None,
            last_updated_at: current_timestamp(),
            checksum,
            is_symlink: false,
            target_path: None,
            symlinked_items: Vec::new(),
        }
    }
}

/// The map that a list of (id, entry) pairs denotes; later pairs win.
pub open spec fn map_of(s: Seq<(String, LockedEntry)>) -> Map<Seq<char>, LockedEntry>
    decreases s.len(),
{
    if s.len() == 0 {
        Map::empty()
    } else {
        map_of(s.drop_last()).insert(s.last().0@, s.last().1)
    }
}

/// No id occurs twice.
pub open spec fn unique_ids(s: Seq<(String, LockedEntry)>) -> bool {
    forall|i: int, j: int| 0 <= i < s.len() && 0 <= j < s.len() && i != j ==> s[i].0@ != s[j].0@
}

proof fn lemma_map_of_dom(s: Seq<(String, LockedEntry)>, k: Seq<char>)
    ensures
        map_of(s).dom().contains(k) <==> exists|i: int| 0 <= i < s.len() && #[trigger] s[i].0@ == k,
    decreases s.len(),
{
    if s.len() > 0 {
        lemma_map_of_dom(s.drop_last(), k);
        if map_of(s).dom().contains(k) && k != s.last().0@ {
            let i = choose|i: int| 0 <= i < s.drop_last().len() && #[trigger] s.drop_last()[i].0@ == k;
            assert(s[i].0@ == k);
        }
        if exists|i: int| 0 <= i < s.len() && #[trigger] s[i].0@ == k {
            let i = choose|i: int| 0 <= i < s.len() && #[trigger] s[i].0@ == k;
            if i < s.len() - 1 {
                assert(s.drop_last()[i].0@ == k);
            }
        }
    }
}

proof fn lemma_map_of_index(s: Seq<(String, LockedEntry)>, i: int)
    requires
        unique_ids(s),
        0 <= i < s.len(),
    ensures
        map_of(s).dom().contains(s[i].0@),
        map_of(s)[s[i].0@] == s[i].1,
    decreases s.len(),
{
    if i < s.len() - 1 {
        assert(s.drop_last()[i] == s[i]);
        lemma_map_of_index(s.drop_last(), i);
    }
}

proof fn lemma_map_of_len(s: Seq<(String, LockedEntry)>)
    requires
        unique_ids(s),
    ensures
        map_of(s).dom().finite(),
        map_of(s).dom().len() == s.len(),
    decreases s.len(),
{
    if s.len() > 0 {
        lemma_map_of_len(s.drop_last());
        lemma_map_of_dom(s.drop_last(), s.last().0@);
        if map_of(s.drop_last()).dom().contains(s.last().0@) {
            let i = choose|i: int|
                0 <= i < s.drop_last().len() && #[trigger] s.drop_last()[i].0@ == s.last().0@;
            assert(s[i].0@ == s[s.len() - 1].0@);
        }
    }
}

/// The locked entries, by id. No id occurs twice.
#[derive(Debug)]
pub struct LockedEntries {
    items: Vec<(String, LockedEntry)>,
}

impl LockedEntries {
    #[verifier::type_invariant]
    spec fn wf(self) -> bool {
        unique_ids(self.items@)
    }

    /// The entries as a map from id to entry.
    pub closed spec fn view(&self) -> Map<Seq<char>, LockedEntry> {
        map_of(self.items@)
    }

    /// The ids in the order they were first inserted.
    pub closed spec fn order(&self) -> Seq<Seq<char>> {
        self.items@.map_values(|p: (String, LockedEntry)| p.0@)
    }

    /// No entries.
    pub fn new() -> (r: LockedEntries)
        ensures
            r.view() == Map::<Seq<char>, LockedEntry>::empty(),
    {
        LockedEntries { items: Vec::new() }
    }

    /// The number of entries.
    pub fn len(&self) -> (r: usize)
        ensures
            self.view().dom().finite(),
            r == self.view().dom().len(),
    {
        proof {
            use_type_invariant(self);
            lemma_map_of_len(self.items@);
        }
        self.items.len()
    }

    /// Whether there are no entries.
    pub fn is_empty(&self) -> (r: bool)
        ensures
            r == (self.view().dom() == Set::<Seq<char>>::empty()),
    {
        proof {
            use_type_invariant(self);
            if self.items@.len() > 0 {
                lemma_map_of_index(self.items@, 0);
            } else {
                assert(self.view().dom() =~= Set::<Seq<char>>::empty());
            }
        }
        self.items.len() == 0
    }

    fn position(&self, id: &str) -> (r: Option<usize>)
        ensures
            match r {
                Some(i) => i < self.items@.len() && self.items@[i as int].0@ == id@,
                None => forall|i: int|
                    0 <= i < self.items@.len() ==> #[trigger] self.items@[i].0@ != id@,
            },
    {
        let mut i: usize = 0;
        while i < self.items.len()
            invariant
                i <= self.items@.len(),
                forall|j: int| 0 <= j < i ==> #[trigger] self.items@[j].0@ != id@,
            decreases self.items@.len() - i,
        {
            if crate::text::str_eq(self.items[i].0.as_str(), id) {
                return Some(i);
            }
            i = i + 1;
        }
        None
    }

    /// Whether an entry with this id exists.
    pub fn contains_key(&self, id: &str) -> (r: bool)
        ensures
            r == self.view().dom().contains(id@),
    {
        proof {
            lemma_map_of_dom(self.items@, id@);
        }
        self.position(id).is_some()
    }

    /// The entry with this id.
    pub fn get(&self, id: &str) -> (r: Option<&LockedEntry>)
        ensures
            match r {
                Some(e) => self.view().dom().contains(id@) && *e == self.view()[id@],
                None => !self.view().dom().contains(id@),
            },
    {
        proof {
            use_type_invariant(self);
            lemma_map_of_dom(self.items@, id@);
        }
        match self.position(id) {
            Some(i) => {
                proof {
                    lemma_map_of_index(self.items@, i as int);
                }
                Some(&self.items[i].1)
            },
            None => None,
        }
    }

    /// Sets the entry of an id, replacing an existing one.
    pub fn insert(&mut self, id: String, entry: LockedEntry)
        ensures
            final(self).view() == old(self).view().insert(id@, entry),
    {
        proof {
            use_type_invariant(&*self);
        }
        let ghost s = self.items@;
        match self.position(id.as_str()) {
            Some(i) => {
                let ghost k = id@;
                let mut items: Vec<(String, LockedEntry)> = Vec::new();
                std::mem::swap(&mut items, &mut self.items);
                items.set(i, (id, entry));
                let ghost t = items@;
                assert(t == s.update(i as int, t[i as int]));
                assert forall|a: int, b: int|
                    0 <= a < t.len() && 0 <= b < t.len() && a != b implies t[a].0@ != t[b].0@ by {
                    if a != i && b != i {
                        assert(t[a] == s[a] && t[b] == s[b]);
                    } else if a == i {
                        assert(t[b] == s[b]);
                    } else {
                        assert(t[a] == s[a]);
                    }
                }
                assert forall|x: Seq<char>| #[trigger] map_of(t).dom().contains(x) <==> map_of(
                    s,
                ).insert(k, entry).dom().contains(x) by {
                    lemma_map_of_dom(t, x);
                    lemma_map_of_dom(s, x);
                    if exists|j: int| 0 <= j < s.len() && #[trigger] s[j].0@ == x {
                        let j = choose|j: int| 0 <= j < s.len() && #[trigger] s[j].0@ == x;
                        if j != i {
                            assert(t[j] == s[j]);
                        }
                    }
                    if exists|j: int| 0 <= j < t.len() && #[trigger] t[j].0@ == x {
                        let j = choose|j: int| 0 <= j < t.len() && #[trigger] t[j].0@ == x;
                        if j != i {
                            assert(t[j] == s[j]);
                        }
                    }
                }
                assert forall|x: Seq<char>| #[trigger] map_of(t).dom().contains(x) implies map_of(
                    t,
                )[x] == map_of(s).insert(k, entry)[x] by {
                    lemma_map_of_dom(t, x);
                    let j = choose|j: int| 0 <= j < t.len() && #[trigger] t[j].0@ == x;
                    lemma_map_of_index(t, j);
                    if j != i {
                        assert(t[j] == s[j]);
                        lemma_map_of_index(s, j);
                    }
                }
                assert(map_of(t) =~= map_of(s).insert(k, entry));
                self.items = items;
            },
            None => {
                let mut items: Vec<(String, LockedEntry)> = Vec::new();
                std::mem::swap(&mut items, &mut self.items);
                proof {
                    lemma_map_of_dom(s, id@);
                }
                items.push((id, entry));
                let ghost t = items@;
                assert(t.drop_last() =~= s);
                assert forall|a: int, b: int|
                    0 <= a < t.len() && 0 <= b < t.len() && a != b implies t[a].0@ != t[b].0@ by {
                    if a < s.len() && b < s.len() {
                        assert(t[a] == s[a] && t[b] == s[b]);
                    } else if a < s.len() {
                        assert(t[a] == s[a]);
                    } else {
                        assert(t[b] == s[b]);
                    }
                }
                self.items = items;
            },
        }
    }

    /// Removes the entry of an id, if present.
    pub fn remove(&mut self, id: &str)
        ensures
            final(self).view() == old(self).view().remove(id@),
    {
        proof {
            use_type_invariant(&*self);
        }
        let ghost s = self.items@;
        match self.position(id) {
            Some(i) => {
                let mut items: Vec<(String, LockedEntry)> = Vec::new();
                std::mem::swap(&mut items, &mut self.items);
                items.remove(i);
                let ghost t = items@;
                assert(t =~= s.remove(i as int));
                assert forall|a: int| 0 <= a < t.len() implies #[trigger] t[a] == (if a < i {
                    s[a]
                } else {
                    s[a + 1]
                }) by {}
                assert forall|a: int, b: int|
                    0 <= a < t.len() && 0 <= b < t.len() && a != b implies t[a].0@ != t[b].0@ by {
                    let a2 = if a < i { a } else { a + 1 };
                    let b2 = if b < i { b } else { b + 1 };
                    assert(t[a] == s[a2] && t[b] == s[b2]);
                }
                assert forall|x: Seq<char>| #[trigger] map_of(t).dom().contains(x) <==> map_of(
                    s,
                ).remove(id@).dom().contains(x) by {
                    lemma_map_of_dom(t, x);
                    lemma_map_of_dom(s, x);
                    if exists|j: int| 0 <= j < s.len() && #[trigger] s[j].0@ == x {
                        let j = choose|j: int| 0 <= j < s.len() && #[trigger] s[j].0@ == x;
                        if j < i {
                            assert(t[j] == s[j]);
                        } else if j > i {
                            assert(t[j - 1] == s[j]);
                        }
                    }
                    if exists|j: int| 0 <= j < t.len() && #[trigger] t[j].0@ == x {
                        let j = choose|j: int| 0 <= j < t.len() && #[trigger] t[j].0@ == x;
                        let j2 = if j < i { j } else { j + 1 };
                        assert(t[j] == s[j2]);
                    }
                }
                assert forall|x: Seq<char>| #[trigger] map_of(t).dom().contains(x) implies map_of(
                    t,
                )[x] == map_of(s).remove(id@)[x] by {
                    lemma_map_of_dom(t, x);
                    let j = choose|j: int| 0 <= j < t.len() && #[trigger] t[j].0@ == x;
                    lemma_map_of_index(t, j);
                    let j2 = if j < i { j } else { j + 1 };
                    assert(t[j] == s[j2]);
                    lemma_map_of_index(s, j2);
                }
                assert(map_of(t) =~= map_of(s).remove(id@));
                self.items = items;
            },
            None => {
                proof {
                    lemma_map_of_dom(s, id@);
                }
                assert(map_of(s) =~= map_of(s).remove(id@));
            },
        }
    }

    /// The ids, in the order they were first inserted.
    pub fn ids(&self) -> (r: Vec<String>)
        ensures
            string_views(r@) == self.order(),
            string_views(r@).no_duplicates(),
            forall|k: Seq<char>|
                self.view().dom().contains(k) <==> string_views(r@).contains(k),
    {
        proof {
            use_type_invariant(self);
        }
        let mut r: Vec<String> = Vec::new();
        let mut i: usize = 0;
        while i < self.items.len()
            invariant
                i <= self.items@.len(),
                string_views(r@) == self.order().take(i as int),
            decreases self.items@.len() - i,
        {
            let ghost before = string_views(r@);
            r.push(self.items[i].0.clone());
            assert(self.order().take(i + 1) =~= self.order().take(i as int).push(self.items@[i as int].0@));
            assert(string_views(r@) =~= before.push(self.items@[i as int].0@));
            i = i + 1;
        }
        assert(self.order().take(self.items@.len() as int) =~= self.order());
        assert forall|a: int, b: int|
            0 <= a < self.order().len() && 0 <= b < self.order().len() && a != b implies self.order()[a]
            != self.order()[b] by {
            assert(self.order()[a] == self.items@[a].0@ && self.order()[b] == self.items@[b].0@);
        }
        assert forall|k: Seq<char>|
            self.view().dom().contains(k) <==> string_views(r@).contains(k) by {
            lemma_map_of_dom(self.items@, k);
            if self.view().dom().contains(k) {
                let j = choose|j: int| 0 <= j < self.items@.len() && #[trigger] self.items@[j].0@ == k;
                assert(string_views(r@)[j] == k);
            }
            if string_views(r@).contains(k) {
                let j = choose|j: int|
                    0 <= j < r@.len() && #[trigger] string_views(r@)[j] == k;
                assert(self.items@[j].0@ == k);
            }
        }
        r
    }
}

/// Package version recorded in lockfiles.
pub fn package_version() -> (r: String)
    ensures
        r@ == "0.1.0"@,
{
    String::from_str("0.1.0")
}

/// The lockfile.
#[derive(Debug)]
pub struct Lockfile {
    /// Version of the lockfile format
    pub version: u32,
    /// Version of the package that wrote the lockfile
    pub aps_version: String,
    /// Locked entries by id
    pub entries: LockedEntries,
}

/// Lockfile format version
pub fn default_version() -> (r: u32)
    ensures
        r == 1,
{
    1
}

/// Whether the entry with this id has this checksum.
pub open spec fn checksum_is(m: Map<Seq<char>, LockedEntry>, id: Seq<char>, c: Seq<char>) -> bool {
    m.dom().contains(id) && m[id].checksum@ == c
}

/// Whether the entry with this id was installed from this commit.
pub open spec fn commit_is(m: Map<Seq<char>, LockedEntry>, id: Seq<char>, c: Seq<char>) -> bool {
    m.dom().contains(id) && (m[id].commit matches Some(x) && x@ == c)
}

/// The ids of a list of string slices.
pub open spec fn str_views(v: Seq<&str>) -> Seq<Seq<char>> {
    v.map_values(|s: &str| s@)
}

impl Lockfile {
    /// An empty lockfile of the current format and package version.
    pub fn new() -> (r: Lockfile)
        ensures
            r.version == 1,
            r.aps_version@ == "0.1.0"@,
            r.entries.view() == Map::<Seq<char>, LockedEntry>::empty(),
    {
        Lockfile {
            version: default_version(),
            aps_version: package_version(),
            entries: LockedEntries::new(),
        }
    }

    /// The lockfile path next to a manifest.
    pub fn path_for_manifest(manifest_path: &str) -> (r: String)
        ensures
            match parent(manifest_path@) {
                Some(p) => r@ == join(p, "aps.lock.yaml"@),
                None => r@ == "aps.lock.yaml"@,
            },
    {
        match parent_of(manifest_path) {
            Some(p) => join_paths(p.as_str(), LOCKFILE_NAME),
            None => String::from_str(LOCKFILE_NAME),
        }
    }

    /// The legacy lockfile path next to a lockfile path.
    pub fn legacy_path_for(path: &str) -> (r: String)
        ensures
            match parent(path@) {
                Some(p) => r@ == join(p, "aps.manifest.lock"@),
                None => r@ == "aps.manifest.lock"@,
            },
    {
        match parent_of(path) {
            Some(p) => join_paths(p.as_str(), LEGACY_LOCKFILE_NAME),
            None => String::from_str(LEGACY_LOCKFILE_NAME),
        }
    }

    /// Records the current package version, as saving does.
    pub fn stamp_version(&mut self)
        ensures
            final(self).aps_version@ == "0.1.0"@,
            final(self).version == old(self).version,
            final(self).entries == old(self).entries,
    {
        self.aps_version = package_version();
    }

    /// Sets the entry of an id.
    pub fn upsert(&mut self, id: String, entry: LockedEntry)
        ensures
            final(self).entries.view() == old(self).entries.view().insert(id@, entry),
            final(self).version == old(self).version,
            final(self).aps_version == old(self).aps_version,
    {
        self.entries.insert(id, entry);
    }

    /// Whether the locked entry of `id` has checksum `checksum`.
    pub fn checksum_matches(&self, id: &str, checksum: &str) -> (r: bool)
        ensures
            r == checksum_is(self.entries.view(), id@, checksum@),
    {
        match self.entries.get(id) {
            Some(e) => crate::text::str_eq(e.checksum.as_str(), checksum),
            None => false,
        }
    }

    /// Whether the locked entry of `id` was installed from commit `commit_sha`.
    pub fn commit_matches(&self, id: &str, commit_sha: &str) -> (r: bool)
        ensures
            r == commit_is(self.entries.view(), id@, commit_sha@),
    {
        match self.entries.get(id) {
            Some(e) => match &e.commit {
                Some(c) => crate::text::str_eq(c.as_str(), commit_sha),
                None => false,
            },
            None => false,
        }
    }

    /// Keeps only the entries whose id is listed; returns the removed ids.
    pub fn retain_entries(&mut self, ids_to_keep: &[&str]) -> (removed: Vec<String>)
        ensures
            forall|k: Seq<char>| #[trigger]
                final(self).entries.view().dom().contains(k) <==> old(self).entries.view().dom().contains(
                    k,
                ) && str_views(ids_to_keep@).contains(k),
            forall|k: Seq<char>| #[trigger]
                final(self).entries.view().dom().contains(k) ==> final(self).entries.view()[k]
                    == old(self).entries.view()[k],
            forall|k: Seq<char>| #[trigger]
                string_views(removed@).contains(k) <==> old(
                    self,
                ).entries.view().dom().contains(k) && !str_views(ids_to_keep@).contains(k),
            string_views(removed@).no_duplicates(),
            final(self).version == old(self).version,
            final(self).aps_version == old(self).aps_version,
    {
        let ids = self.entries.ids();
        let ghost start = self.entries.view();
        let ghost idv = string_views(ids@);
        proof {
            assert(self.entries.order() == idv);
        }
        let mut removed: Vec<String> = Vec::new();
        let mut i: usize = 0;
        while i < ids.len()
            invariant
                i <= ids@.len(),
                idv == string_views(ids@),
                forall|k: Seq<char>| start.dom().contains(k) <==> idv.contains(k),
                idv.no_duplicates(),
                forall|k: Seq<char>| #[trigger]
                    self.entries.view().dom().contains(k) <==> start.dom().contains(k) && (
                    str_views(ids_to_keep@).contains(k) || !idv.take(i as int).contains(k)),
                forall|k: Seq<char>| #[trigger]
                    self.entries.view().dom().contains(k) ==> self.entries.view()[k] == start[k],
                forall|k: Seq<char>| #[trigger]
                    string_views(removed@).contains(k) <==> idv.take(i as int).contains(k)
                        && !str_views(ids_to_keep@).contains(k),
                string_views(removed@).no_duplicates(),
                forall|k: Seq<char>| #[trigger]
                    string_views(removed@).contains(k) ==> idv.take(i as int).contains(k),
                self.version == old(self).version,
                self.aps_version == old(self).aps_version,
            decreases ids@.len() - i,
        {
            let keep = listed(ids_to_keep, ids[i].as_str());
            let ghost k0 = idv[i as int];
            assert(ids@[i as int]@ == k0);
            assert forall|k: Seq<char>| idv.take(i + 1).contains(k) <==> (idv.take(i as int).contains(k)
                || k == k0) by {
                if idv.take(i + 1).contains(k) {
                    let j = choose|j: int| 0 <= j < i + 1 && #[trigger] idv.take(i + 1)[j] == k;
                    if j < i {
                        assert(idv.take(i as int)[j] == k);
                    }
                }
                if idv.take(i as int).contains(k) {
                    let j = choose|j: int| 0 <= j < i && #[trigger] idv.take(i as int)[j] == k;
                    assert(idv.take(i + 1)[j] == k);
                }
                if k == k0 {
                    assert(idv.take(i + 1)[i as int] == k);
                }
            }
            assert(!idv.take(i as int).contains(k0)) by {
                if idv.take(i as int).contains(k0) {
                    let j = choose|j: int| 0 <= j < i && #[trigger] idv.take(i as int)[j] == k0;
                    assert(idv[j] == idv[i as int]);
                }
            }
            if !keep {
                let ghost before = string_views(removed@);
                self.entries.remove(ids[i].as_str());
                removed.push(ids[i].clone());
                assert(string_views(removed@) =~= before.push(k0));
                assert(!before.contains(k0));
                assert forall|k: Seq<char>| #[trigger]
                    string_views(removed@).contains(k) <==> before.contains(k) || k == k0 by {
                    if string_views(removed@).contains(k) {
                        let j = choose|j: int|
                            0 <= j < removed@.len() && #[trigger] string_views(removed@)[j] == k;
                        if j < before.len() {
                            assert(before[j] == k);
                        }
                    }
                    if before.contains(k) {
                        let j = choose|j: int| 0 <= j < before.len() && #[trigger] before[j] == k;
                        assert(string_views(removed@)[j] == k);
                    }
                    if k == k0 {
                        assert(string_views(removed@)[before.len() as int] == k);
                    }
                }
            }
            i = i + 1;
        }
        assert(idv.take(ids@.len() as int) =~= idv);
        removed
    }
}

/// Whether `id` is one of `ids`.
fn listed(ids: &[&str], id: &str) -> (r: bool)
    ensures
        r == str_views(ids@).contains(id@),
{
    let mut i: usize = 0;
    while i < ids.len()
        invariant
            i <= ids@.len(),
            forall|j: int| 0 <= j < i ==> ids@[j]@ != id@,
        decreases ids@.len() - i,
    {
        if crate::text::str_eq(ids[i], id) {
            assert(str_views(ids@)[i as int] == id@);
            return true;
        }
        i = i + 1;
    }
    assert forall|j: int| 0 <= j < ids@.len() implies str_views(ids@)[j] != id@ by {}
    false
}

/// The mathematical content of a `LockedSource`.
pub enum LockedSourceView {
    Simple(Seq<char>),
    Composite(Seq<Seq<char>>),
}

impl View for LockedSource {
    type V = LockedSourceView;

    open spec fn view(&self) -> LockedSourceView {
        match self {
            LockedSource::Simple(s) => LockedSourceView::Simple(s@),
            LockedSource::Composite(v) => LockedSourceView::Composite(string_views(v@)),
        }
    }
}

/// The items of `- item` lines, trimmed, in order.
pub open spec fn dash_items(lines: Seq<Seq<char>>) -> Seq<Seq<char>>
    decreases lines.len(),
{
    if lines.len() == 0 {
        Seq::empty()
    } else {
        let rest = dash_items(lines.drop_last());
        let t = trim(lines.last());
        if starts_with(t, "-"@) {
            rest.push(trim(strip_all_prefix(t, "-"@)))
        } else {
            rest
        }
    }
}

/// All lines but the first.
pub open spec fn after_first_line(ls: Seq<Seq<char>>) -> Seq<Seq<char>> {
    if ls.len() > 0 {
        ls.skip(1)
    } else {
        ls
    }
}

/// What a source written as a plain string in a lockfile denotes. Strings of
/// earlier versions that begin with `composite:` list merged sources, either as
/// `composite: [a, b]` or as `- item` lines below a `composite:` line.
pub open spec fn source_from_text(v: Seq<char>) -> LockedSourceView {
    if starts_with(v, "composite:"@) {
        let rest = trim(strip_all_prefix(v, "composite:"@));
        if rest.len() >= 2 && starts_with(rest, "["@) && ends_with(rest, "]"@) {
            LockedSourceView::Composite(
                trim_each(split_str(rest.subrange(1, rest.len() - 1), ", "@)),
            )
        } else if (starts_with(rest, "\n"@) || rest.len() == 0) && dash_items(
            after_first_line(lines_of(v)),
        ).len() > 0 {
            LockedSourceView::Composite(dash_items(after_first_line(lines_of(v))))
        } else {
            LockedSourceView::Simple(v)
        }
    } else {
        LockedSourceView::Simple(v)
    }
}

/// The text a locked source displays.
pub open spec fn source_text(s: LockedSourceView) -> Seq<char> {
    match s {
        LockedSourceView::Simple(x) => x,
        LockedSourceView::Composite(v) => "composite: ["@ + join_with(v, ", "@) + "]"@,
    }
}

fn dash_items_of(ls: &Vec<Vec<char>>, from: usize) -> (r: Vec<Vec<char>>)
    requires
        from <= ls@.len(),
    ensures
        views(r@) == dash_items(views(ls@).skip(from as int)),
{
    let dash = chars_of("-");
    let mut r: Vec<Vec<char>> = Vec::new();
    let mut i = from;
    assert(views(ls@).skip(from as int).take(0) =~= Seq::<Seq<char>>::empty());
    while i < ls.len()
        invariant
            from <= i <= ls@.len(),
            dash@ == "-"@,
            views(r@) == dash_items(views(ls@).skip(from as int).take(i - from)),
        decreases ls@.len() - i,
    {
        let ghost done = views(ls@).skip(from as int).take(i - from);
        let ghost nxt = views(ls@).skip(from as int).take(i + 1 - from);
        assert(nxt.drop_last() =~= done);
        assert(nxt.last() == ls@[i as int]@);
        let t = trim_chars(ls[i].as_slice());
        if has_prefix(t.as_slice(), dash.as_slice()) {
            let u = trim_start_matches(t.as_slice(), dash.as_slice());
            let item = trim_chars(u.as_slice());
            let ghost old_r = views(r@);
            r.push(item);
            assert(views(r@) =~= old_r.push(item@));
        }
        i = i + 1;
    }
    assert(views(ls@).skip(from as int).take(ls@.len() - from) =~= views(ls@).skip(from as int));
    r
}

fn strings_of(v: &Vec<Vec<char>>) -> (r: Vec<String>)
    ensures
        string_views(r@) == views(v@),
{
    let mut r: Vec<String> = Vec::new();
    let mut i: usize = 0;
    while i < v.len()
        invariant
            i <= v@.len(),
            string_views(r@) == views(v@).take(i as int),
        decreases v@.len() - i,
    {
        let ghost old_r = string_views(r@);
        r.push(string_of(v[i].as_slice()));
        assert(string_views(r@) =~= old_r.push(v@[i as int]@));
        assert(views(v@).take(i + 1) =~= views(v@).take(i as int).push(v@[i as int]@));
        i = i + 1;
    }
    assert(views(v@).take(v@.len() as int) =~= views(v@));
    r
}

impl LockedSource {
    /// Reads a source written as a plain string, including the composite
    /// forms of earlier versions.
    pub fn from_text(value: &str) -> (r: LockedSource)
        ensures
            r@ == source_from_text(value@),
    {
        let v = chars_of(value);
        let prefix = chars_of("composite:");
        if has_prefix(v.as_slice(), prefix.as_slice()) {
            let stripped = trim_start_matches(v.as_slice(), prefix.as_slice());
            let rest = trim_chars(stripped.as_slice());
            let open = chars_of("[");
            let close = chars_of("]");
            if has_prefix(rest.as_slice(), open.as_slice()) && has_suffix(
                rest.as_slice(),
                close.as_slice(),
            ) {
                proof {
                    reveal_strlit("[");
                    reveal_strlit("]");
                    if rest@.len() == 1 {
                        assert(rest@.subrange(0, 1) == "["@);
                        assert(rest@.subrange(0, 1) == "]"@);
                        assert("["@[0] == "]"@[0]);
                    }
                }
                let n = rest.len();
                let inner = slice_copy(rest.as_slice(), 1, n - 1);
                let sep = chars_of(", ");
                proof {
                    reveal_strlit(", ");
                }
                let parts = split_on_str(inner.as_slice(), sep.as_slice());
                let trimmed = trim_all(&parts);
                return LockedSource::Composite(strings_of(&trimmed));
            }
            let nl = chars_of("\n");
            if has_prefix(rest.as_slice(), nl.as_slice()) || rest.len() == 0 {
                let ls = lines(v.as_slice());
                let from: usize = if ls.len() > 0 {
                    1
                } else {
                    0
                };
                let items = dash_items_of(&ls, from);
                proof {
                    if views(ls@).len() > 0 {
                        assert(views(ls@).skip(1) == after_first_line(lines_of(v@)));
                    } else {
                        assert(views(ls@).skip(0) =~= after_first_line(lines_of(v@)));
                    }
                }
                if items.len() > 0 {
                    return LockedSource::Composite(strings_of(&items));
                }
            }
        }
        LockedSource::Simple(String::from_str(value))
    }

    /// The text this source displays.
    pub fn render(&self) -> (r: String)
        ensures
            r@ == source_text(self@),
    {
        match self {
            LockedSource::Simple(s) => s.clone(),
            LockedSource::Composite(v) => {
                let mut parts: Vec<Vec<char>> = Vec::new();
                let mut i: usize = 0;
                while i < v.len()
                    invariant
                        i <= v@.len(),
                        views(parts@) == string_views(v@).take(i as int),
                    decreases v@.len() - i,
                {
                    let ghost old_p = views(parts@);
                    parts.push(chars_of(v[i].as_str()));
                    assert(views(parts@) =~= old_p.push(v@[i as int]@));
                    assert(string_views(v@).take(i + 1) =~= string_views(v@).take(i as int).push(
                        v@[i as int]@,
                    ));
                    i = i + 1;
                }
                assert(string_views(v@).take(v@.len() as int) =~= string_views(v@));
                let sep = chars_of(", ");
                let joined = join_from(&parts, 0, sep.as_slice());
                assert(views(parts@).skip(0) =~= views(parts@));
                let body = string_of(joined.as_slice());
                cat3("composite: [", body.as_str(), "]")
            },
        }
    }
}

/// A locked source displayed as text and read back is the same source: a
/// simple source whose text does not begin with `composite:`, or a composite
/// source of one or more trimmed paths none of which holds `", "`.
pub proof fn law_source_text_round_trip(s: LockedSourceView)
    requires
        match s {
            LockedSourceView::Simple(x) => !starts_with(x, "composite:"@),
            LockedSourceView::Composite(v) => v.len() > 0 && forall|i: int|
                0 <= i < v.len() ==> trim(#[trigger] v[i]) == v[i] && !occurs(v[i], ", "@),
        },
    ensures
        source_from_text(source_text(s)) == s,
{
    match s {
        LockedSourceView::Simple(x) => {},
        LockedSourceView::Composite(v) => {
            reveal_strlit("composite: [");
            reveal_strlit("composite:");
            reveal_strlit("[");
            reveal_strlit("]");
            let j = join_with(v, ", "@);
            let t = source_text(s);
            assert(t == "composite: ["@ + j + "]"@);
            let p = "composite:"@;
            assert(t.subrange(0, 10) =~= p);
            let after = t.subrange(10, t.len() as int);
            let rest = "["@ + j + "]"@;
            assert(after =~= seq![' '] + rest);
            assert(!starts_with(after, p)) by {
                if starts_with(after, p) {
                    assert(after.subrange(0, 10)[0] == p[0]);
                }
            }
            assert(strip_all_prefix(after, p) == after);
            assert(p.len() == 10 && starts_with(t, p));
            assert(strip_all_prefix(t, p) == strip_all_prefix(after, p));
            assert(is_ws(after[0]) && after.drop_first() =~= rest);
            assert(trim_start(after) == trim_start(rest));
            assert(!is_ws(rest[0]));
            assert(trim_start(rest) == rest);
            assert(!is_ws(rest.last()));
            assert(trim_end(rest) == rest);
            assert(trim(after) == rest);
            assert(rest.len() >= 2);
            assert(rest.subrange(0, 1) =~= "["@);
            assert(rest.subrange(rest.len() - 1, rest.len() as int) =~= "]"@);
            assert(rest.subrange(1, rest.len() - 1) =~= j);
            assert forall|i: int| 0 <= i < v.len() implies !occurs(#[trigger] v[i], ", "@) by {
                assert(trim(v[i]) == v[i]);
            }
            lemma_split_join_comma(v);
            assert(trim_each(v) =~= v);
        },
    }
}

/// After an entry is set, its checksum and commit are read back as written,
/// and every other entry reads as before.
pub proof fn law_upsert_read_back(
    m: Map<Seq<char>, LockedEntry>,
    id: Seq<char>,
    e: LockedEntry,
    other: Seq<char>,
    c: Seq<char>,
)
    ensures
        checksum_is(m.insert(id, e), id, c) <==> e.checksum@ == c,
        commit_is(m.insert(id, e), id, c) <==> (e.commit matches Some(x) && x@ == c),
        other != id ==> (checksum_is(m.insert(id, e), other, c) <==> checksum_is(m, other, c)),
        other != id ==> (commit_is(m.insert(id, e), other, c) <==> commit_is(m, other, c)),
{
}

/// The time of a timestamp as `chrono` writes it with the format
/// `%Y-%m-%d %H:%M:%S UTC`.
pub uninterp spec fn utc_text(seconds: i64, nanos: u32) -> Seq<char>;

/// `chrono::DateTime::<Utc>::from_timestamp(..).format("%Y-%m-%d %H:%M:%S UTC")`
/// (the epoch for a timestamp out of `chrono`'s range): the text is named
/// `utc_text` of the timestamp, which it depends on alone.
#[verifier::external_body]
fn format_utc(t: Timestamp) -> (r: String)
    ensures
        r@ == utc_text(t.seconds, t.nanos),
{
    chrono::DateTime::from_timestamp(t.seconds, t.nanos)
        .unwrap_or_default()
        .format("%Y-%m-%d %H:%M:%S UTC")
        .to_string()
}

/// The rule between entries in the status report.
pub open spec fn status_rule() -> Seq<char> {
    Seq::new(80, |i: int| '-')
}

/// A labelled line for an optional value.
pub open spec fn opt_line(label: Seq<char>, o: Option<String>) -> Seq<Seq<char>> {
    match o {
        Some(x) => seq![label + x@],
        None => Seq::empty(),
    }
}

/// The status lines of a locked entry's source.
pub open spec fn source_lines(s: LockedSource) -> Seq<Seq<char>> {
    match s {
        LockedSource::Simple(x) => seq!["Source:       "@ + x@],
        LockedSource::Composite(v) => seq!["Source:       composite"@] + string_views(v@).map_values(
            |x: Seq<char>| "              - "@ + x,
        ),
    }
}

/// The status lines of a symlinked install.
pub open spec fn symlink_lines(e: LockedEntry) -> Seq<Seq<char>> {
    if e.is_symlink {
        seq!["Type:         symlink"@] + opt_line("Target:       "@, e.target_path) + if e.symlinked_items@.len()
            > 0 {
            seq!["Items:        "@ + decimal(e.symlinked_items@.len()) + " symlinked"@]
        } else {
            Seq::empty()
        }
    } else {
        Seq::empty()
    }
}

/// The status lines of one locked entry, ending with a rule.
pub open spec fn entry_status_lines(id: Seq<char>, e: LockedEntry) -> Seq<Seq<char>> {
    seq!["ID:           "@ + id] + source_lines(e.source) + seq!["Destination:  "@ + e.dest@] + opt_line(
        "Ref:          "@,
        e.resolved_ref,
    ) + opt_line("Commit:       "@, e.commit) + symlink_lines(e) + seq![
        "Last updated: "@ + utc_text(e.last_updated_at.seconds, e.last_updated_at.nanos),
        "Checksum:     "@ + e.checksum@,
        status_rule(),
    ]
}

/// What `status` shows of a lockfile: the version that wrote it, then each
/// entry in the order it was first recorded.
pub open spec fn status_lines(l: Lockfile) -> Seq<Seq<char>> {
    let head = if l.aps_version@.len() > 0 {
        seq!["APS version:  "@ + l.aps_version@]
    } else {
        Seq::empty()
    };
    let m = l.entries.view();
    if m.dom().len() == 0 {
        head + seq!["No entries in lockfile."@]
    } else {
        head + seq!["Synced entries:"@, status_rule()] + l.entries.order().map_values(
            |id: Seq<char>| entry_status_lines(id, m[id]),
        ).flatten_alt()
    }
}

/// Appends a line.
fn push_line(out: &mut Vec<String>, line: String)
    ensures
        string_views(final(out)@) == string_views(old(out)@).push(line@),
{
    out.push(line);
    assert(string_views(out@) =~= string_views(old(out)@).push(line@));
}

/// Appends a labelled line for an optional value.
fn push_opt(out: &mut Vec<String>, label: &str, o: &Option<String>)
    ensures
        string_views(final(out)@) == string_views(old(out)@) + opt_line(label@, *o),
{
    match o {
        Some(x) => push_line(out, cat2(label, x.as_str())),
        None => {
            assert(string_views(out@) =~= string_views(out@) + opt_line(label@, *o));
        },
    }
}

/// Appends the status lines of a source.
fn push_source_lines(out: &mut Vec<String>, source: &LockedSource)
    ensures
        string_views(final(out)@) == string_views(old(out)@) + source_lines(*source),
{
    match source {
        LockedSource::Simple(x) => push_line(out, cat2("Source:       ", x.as_str())),
        LockedSource::Composite(v) => {
            let ghost start = string_views(out@);
            push_line(out, lit("Source:       composite"));
            let ghost base = string_views(out@);
            let mut i: usize = 0;
            while i < v.len()
                invariant
                    i <= v@.len(),
                    string_views(out@) == base + string_views(v@).take(i as int).map_values(
                        |x: Seq<char>| "              - "@ + x,
                    ),
                decreases v@.len() - i,
            {
                push_line(out, cat2("              - ", v[i].as_str()));
                assert(string_views(v@).take(i + 1).map_values(|x: Seq<char>| "              - "@ + x)
                    =~= string_views(v@).take(i as int).map_values(|x: Seq<char>| "              - "@ + x).push(
                    "              - "@ + v@[i as int]@,
                ));
                i = i + 1;
            }
            assert(string_views(v@).take(v@.len() as int) =~= string_views(v@));
            assert(string_views(out@) =~= start + source_lines(*source));
        },
    }
}

/// Appends the status lines of a symlinked install.
fn push_symlink_lines(out: &mut Vec<String>, e: &LockedEntry)
    ensures
        string_views(final(out)@) == string_views(old(out)@) + symlink_lines(*e),
{
    let ghost start = string_views(out@);
    if e.is_symlink {
        push_line(out, lit("Type:         symlink"));
        push_opt(out, "Target:       ", &e.target_path);
        if e.symlinked_items.len() > 0 {
            let n = decimal_text(e.symlinked_items.len());
            let count = string_of(n.as_slice());
            push_line(out, cat3("Items:        ", count.as_str(), " symlinked"));
        }
    }
    assert(string_views(out@) =~= start + symlink_lines(*e));
}

/// Appends the status lines of one locked entry.
fn entry_report(id: &str, e: &LockedEntry, rule: &str, out: &mut Vec<String>)
    requires
        rule@ == status_rule(),
    ensures
        string_views(final(out)@) == string_views(old(out)@) + entry_status_lines(id@, *e),
{
    let ghost start = string_views(out@);
    push_line(out, cat2("ID:           ", id));
    push_source_lines(out, &e.source);
    push_line(out, cat2("Destination:  ", e.dest.as_str()));
    push_opt(out, "Ref:          ", &e.resolved_ref);
    push_opt(out, "Commit:       ", &e.commit);
    push_symlink_lines(out, e);
    let when = format_utc(e.last_updated_at);
    push_line(out, cat2("Last updated: ", when.as_str()));
    push_line(out, cat2("Checksum:     ", e.checksum.as_str()));
    push_line(out, lit(rule));
    assert(string_views(out@) =~= start + entry_status_lines(id@, *e));
}

impl Lockfile {
    /// The lines `status` shows: the version that wrote the lockfile, then
    /// each entry (source, destination, ref and commit, symlink details, time
    /// of the last update, checksum), in the order entries were first
    /// recorded.
    pub fn status_report(&self) -> (r: Vec<String>)
        ensures
            string_views(r@) == status_lines(*self),
    {
        let mut out: Vec<String> = Vec::new();
        if !self.aps_version.as_str().is_empty() {
            push_line(&mut out, cat2("APS version:  ", self.aps_version.as_str()));
        }
        let ghost head = string_views(out@);
        assert(head =~= if self.aps_version@.len() > 0 {
            seq!["APS version:  "@ + self.aps_version@]
        } else {
            Seq::empty()
        });
        let count = self.entries.len();
        if count == 0 {
            push_line(&mut out, lit("No entries in lockfile."));
            return out;
        }
        let mut rule_chars: Vec<char> = Vec::new();
        let mut k: usize = 0;
        while k < 80
            invariant
                k <= 80,
                rule_chars@ =~= Seq::new(k as nat, |i: int| '-'),
            decreases 80 - k,
        {
            rule_chars.push('-');
            k = k + 1;
        }
        let rule = string_of(rule_chars.as_slice());
        push_line(&mut out, lit("Synced entries:"));
        push_line(&mut out, lit(rule.as_str()));
        let ids = self.entries.ids();
        let ghost m = self.entries.view();
        let ghost order = self.entries.order();
        let ghost base = string_views(out@);
        let mut i: usize = 0;
        while i < ids.len()
            invariant
                i <= ids@.len(),
                string_views(ids@) == order,
                rule@ == status_rule(),
                m == self.entries.view(),
                forall|k: Seq<char>| m.dom().contains(k) <==> string_views(ids@).contains(k),
                string_views(out@) == base + order.take(i as int).map_values(
                    |id: Seq<char>| entry_status_lines(id, m[id]),
                ).flatten_alt(),
            decreases ids@.len() - i,
        {
            let id = &ids[i];
            assert(string_views(ids@)[i as int] == id@);
            assert(string_views(ids@).contains(id@));
            let e = self.entries.get(id.as_str());
            let e = match e {
                Some(e) => e,
                None => {
                    assert(false);
                    return out;
                },
            };
            let ghost before = string_views(out@);
            entry_report(id.as_str(), e, rule.as_str(), &mut out);
            proof {
                let f = |id: Seq<char>| entry_status_lines(id, m[id]);
                assert(order.take(i + 1).map_values(f) =~= order.take(i as int).map_values(f).push(
                    f(id@),
                ));
                assert(order.take(i + 1).map_values(f).drop_last() =~= order.take(i as int).map_values(f));
            }
            i = i + 1;
        }
        assert(order.take(ids@.len() as int) =~= order);
        out
    }
}

} // verus!
