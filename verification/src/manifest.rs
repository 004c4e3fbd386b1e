//! The manifest: which assets to sync, from where, to where.
use crate::error::{cat2, cat3, ApsError};
use crate::paths::{join, join_paths, parent, parent_of};
use crate::text::str_eq;
use crate::sources::{expand_path, expansion_of, Adapter, FilesystemSource, GitSource};
use vstd::prelude::*;

verus! {

/// Default manifest filename
pub const DEFAULT_MANIFEST_NAME: &'static str = "aps.yaml";

/// Asset kinds supported by the manifest.
#[derive(Debug, Clone, Copy, PartialEq, Eq, Structural)]
pub enum AssetKind {
    /// Cursor rules directory
    CursorRules,
    /// Cursor hooks directory
    CursorHooks,
    /// Cursor skills root directory
    CursorSkillsRoot,
    /// AGENTS.md file
    AgentsMd,
    /// Agent skill directory
    AgentSkill,
    /// Several markdown files merged into one AGENTS.md
    CompositeAgentsMd,
}

/// Default destination of each kind.
pub open spec fn default_dest_of(k: AssetKind) -> Seq<char> {
    match k {
        AssetKind::CursorRules => ".cursor/rules"@,
        AssetKind::CursorHooks => ".cursor/hooks"@,
        AssetKind::CursorSkillsRoot => ".cursor/skills"@,
        AssetKind::AgentsMd => "AGENTS.md"@,
        AssetKind::AgentSkill => "\x2eclaude/skills"@,
        AssetKind::CompositeAgentsMd => "AGENTS.md"@,
    }
}

/// The kind a manifest spells with the given name.
pub open spec fn kind_named(s: Seq<char>) -> Option<AssetKind> {
    if s == "cursor_rules"@ {
        Some(AssetKind::CursorRules)
    } else if s == "cursor_hooks"@ {
        Some(AssetKind::CursorHooks)
    } else if s == "cursor_skills_root"@ {
        Some(AssetKind::CursorSkillsRoot)
    } else if s == "agents_md"@ {
        Some(AssetKind::AgentsMd)
    } else if s == "agent_skill"@ {
        Some(AssetKind::AgentSkill)
    } else if s == "composite_agents_md"@ {
        Some(AssetKind::CompositeAgentsMd)
    } else {
        None
    }
}

impl AssetKind {
    /// The default destination for this asset kind.
    pub fn default_dest(&self) -> (r: String)
        ensures
            r@ == default_dest_of(*self),
    {
        match self {
            AssetKind::CursorRules => String::from_str(".cursor/rules"),
            AssetKind::CursorHooks => String::from_str(".cursor/hooks"),
            AssetKind::CursorSkillsRoot => String::from_str(".cursor/skills"),
            AssetKind::AgentsMd => String::from_str("AGENTS.md"),
            AssetKind::AgentSkill => String::from_str("\x2eclaude/skills"),
            AssetKind::CompositeAgentsMd => String::from_str("AGENTS.md"),
        }
    }

    /// The kind with the given manifest name.
    pub fn from_str(s: &str) -> (r: Result<AssetKind, ApsError>)
        ensures
            match kind_named(s@) {
                Some(k) => r == Ok::<AssetKind, ApsError>(k),
                None => r matches Err(ApsError::InvalidAssetKind { kind }) && kind@ == s@,
            },
    {
        if str_eq(s, "cursor_rules") {
            Ok(AssetKind::CursorRules)
        } else if str_eq(s, "cursor_hooks") {
            Ok(AssetKind::CursorHooks)
        } else if str_eq(s, "cursor_skills_root") {
            Ok(AssetKind::CursorSkillsRoot)
        } else if str_eq(s, "agents_md") {
            Ok(AssetKind::AgentsMd)
        } else if str_eq(s, "agent_skill") {
            Ok(AssetKind::AgentSkill)
        } else if str_eq(s, "composite_agents_md") {
            Ok(AssetKind::CompositeAgentsMd)
        } else {
            Err(ApsError::InvalidAssetKind { kind: String::from_str(s) })
        }
    }
}

/// Where assets come from.
#[derive(Debug, Clone)]
pub enum Source {
    /// Git repository
    Git {
        /// Repository URL (SSH or HTTPS)
        repo: String,
        /// Git ref; "auto" tries main, then master
        git_ref: String,
        /// Whether to clone shallowly
        shallow: bool,
        /// Optional path within the repository
        path: Option<String>,
    },
    /// Local filesystem
    Filesystem {
        /// Root directory for resolving paths
        root: String,
        /// Whether to symlink instead of copying
        symlink: bool,
        /// Optional path within the root directory
        path: Option<String>,
    },
}

/// The text `Source::display_path` gives.
pub open spec fn display_path_of(s: Source) -> Seq<char> {
    match s {
        Source::Git { repo, path, .. } => match path {
            Some(p) => repo@ + ":"@ + p@,
            None => repo@,
        },
        Source::Filesystem { root, path, .. } => match path {
            Some(p) => root@ + "/"@ + p@,
            None => root@,
        },
    }
}

/// Default ref of a git source.
pub fn default_ref() -> (r: String)
    ensures
        r@ == "auto"@,
{
    String::from_str("auto")
}

/// Git sources are cloned shallowly unless told otherwise.
pub fn default_shallow() -> (r: bool)
    ensures
        r,
{
    true
}

/// Filesystem sources are symlinked unless told otherwise.
pub fn default_symlink() -> (r: bool)
    ensures
        r,
{
    true
}

impl Source {
    /// The adapter that resolves this source.
    pub fn to_adapter(&self) -> (r: Adapter)
        ensures
            match *self {
                Source::Git { repo, git_ref, shallow, path } => r == Adapter::Git(
                    GitSource { repo, git_ref, shallow, path },
                ),
                Source::Filesystem { root, symlink, path } => r == Adapter::Filesystem(
                    FilesystemSource { root, symlink, path },
                ),
            },
    {
        match self {
            Source::Git { repo, git_ref, shallow, path } => Adapter::Git(
                GitSource::new(repo.clone(), git_ref.clone(), *shallow, path.clone()),
            ),
            Source::Filesystem { root, symlink, path } => Adapter::Filesystem(
                FilesystemSource::new(root.clone(), *symlink, path.clone()),
            ),
        }
    }

    /// Repository URL and ref of a git source.
    pub fn git_info(&self) -> (r: Option<(&str, &str)>)
        ensures
            match *self {
                Source::Git { repo, git_ref, .. } => r matches Some(p) && p.0@ == repo@ && p.1@
                    == git_ref@,
                Source::Filesystem { .. } => r is None,
            },
    {
        match self {
            Source::Git { repo, git_ref, .. } => Some((repo.as_str(), git_ref.as_str())),
            Source::Filesystem { .. } => None,
        }
    }

    /// Path within a git source.
    pub fn git_path(&self) -> (r: Option<&str>)
        ensures
            match *self {
                Source::Git { path, .. } => match path {
                    Some(p) => r matches Some(x) && x@ == p@,
                    None => r is None,
                },
                Source::Filesystem { .. } => r is None,
            },
    {
        match self {
            Source::Git { path, .. } => match path {
                Some(p) => Some(p.as_str()),
                None => None,
            },
            Source::Filesystem { .. } => None,
        }
    }

    /// A readable path that keeps shell variables such as `$HOME` as written.
    pub fn display_path(&self) -> (r: String)
        ensures
            r@ == display_path_of(*self),
    {
        match self {
            Source::Git { repo, path, .. } => match path {
                Some(p) => cat3(repo.as_str(), ":", p.as_str()),
                None => repo.clone(),
            },
            Source::Filesystem { root, path, .. } => match path {
                Some(p) => cat3(root.as_str(), "/", p.as_str()),
                None => root.clone(),
            },
        }
    }
}

/// One entry of the manifest.
#[derive(Debug, Clone)]
pub struct Entry {
    /// Unique identifier
    pub id: String,
    /// The kind of asset
    pub kind: AssetKind,
    /// The source (single-source entries)
    pub source: Option<Source>,
    /// The sources to compose (composite entries)
    pub sources: Vec<Source>,
    /// Destination override
    pub dest: Option<String>,
    /// Name prefixes that select which files or folders to sync
    pub include_prefixes: Vec<String>,
}

/// Whether an entry merges several sources.
pub open spec fn is_composite_entry(e: Entry) -> bool {
    e.kind == AssetKind::CompositeAgentsMd && e.sources@.len() > 0
}

impl Entry {
    /// The entry of a freshly initialised manifest.
    fn example() -> (r: Entry)
        ensures
            r.id@ == "my-agents"@,
            r.kind == AssetKind::AgentsMd,
            r.source matches Some(Source::Filesystem { root, symlink, path }) && root@
                == "../shared-assets"@ && symlink && (path matches Some(p) && p@ == "AGENTS.md"@),
            r.sources@.len() == 0,
            r.dest is None,
            r.include_prefixes@.len() == 0,
    {
        Entry {
            id: String::from_str("my-agents"),
            kind: AssetKind::AgentsMd,
            source: Some(
                Source::Filesystem {
                    root: String::from_str("../shared-assets"),
                    symlink: true,
                    path: Some(String::from_str("AGENTS.md")),
                },
            ),
            sources: Vec::new(),
            dest: None,
            include_prefixes: Vec::new(),
        }
    }

    /// Whether this entry merges several sources.
    pub fn is_composite(&self) -> (r: bool)
        ensures
            r == is_composite_entry(*self),
    {
        self.kind == AssetKind::CompositeAgentsMd && self.sources.len() > 0
    }

    /// The destination: the override after shell expansion, or the kind's default.
    pub fn destination(&self) -> (r: String)
        ensures
            match self.dest {
                Some(d) => expansion_of(d@, r@),
                None => r@ == default_dest_of(self.kind),
            },
    {
        match &self.dest {
            Some(d) => expand_path(d.as_str()),
            None => self.kind.default_dest(),
        }
    }
}

/// The manifest file's content.
#[derive(Debug, Clone)]
pub struct Manifest {
    /// Entries to sync
    pub entries: Vec<Entry>,
}

impl Manifest {
    /// The manifest `aps init` writes: one example entry.
    pub fn default() -> (r: Manifest)
        ensures
            r.entries@.len() == 1,
            r.entries@[0].id@ == "my-agents"@,
            r.entries@[0].kind == AssetKind::AgentsMd,
    {
        Manifest { entries: vec![Entry::example()] }
    }
}

/// What is wrong with the entry at a position of a manifest, if anything.
pub enum ManifestProblem {
    DuplicateId,
    CompositeWithoutSources,
    MissingSource,
}

/// The first problem of entry `i`, checked in the order the manifest is validated.
pub open spec fn entry_problem(es: Seq<Entry>, i: int) -> Option<ManifestProblem> {
    if exists|j: int| 0 <= j < i && #[trigger] es[j].id@ == es[i].id@ {
        Some(ManifestProblem::DuplicateId)
    } else if es[i].kind == AssetKind::CompositeAgentsMd {
        if es[i].sources@.len() == 0 {
            Some(ManifestProblem::CompositeWithoutSources)
        } else {
            None
        }
    } else if es[i].source is None {
        Some(ManifestProblem::MissingSource)
    } else {
        None
    }
}

/// The error reported for a problem of an entry.
pub open spec fn reports(e: ApsError, p: ManifestProblem, id: Seq<char>) -> bool {
    match p {
        ManifestProblem::DuplicateId => e matches ApsError::DuplicateId { id: x } && x@ == id,
        ManifestProblem::CompositeWithoutSources => e matches ApsError::CompositeRequiresSources {
            id: x,
        } && x@ == id,
        ManifestProblem::MissingSource => e matches ApsError::EntryRequiresSource { id: x } && x@
            == id,
    }
}

fn seen_before(es: &Vec<Entry>, i: usize) -> (b: bool)
    requires
        i < es@.len(),
    ensures
        b == exists|j: int| 0 <= j < i && #[trigger] es@[j].id@ == es@[i as int].id@,
{
    let mut j: usize = 0;
    while j < i
        invariant
            i < es@.len(),
            j <= i,
            forall|k: int| 0 <= k < j ==> es@[k].id@ != es@[i as int].id@,
        decreases i - j,
    {
        if es[j].id == es[i].id {
            return true;
        }
        j = j + 1;
    }
    false
}

/// Whether a manifest's entries pass validation, said plainly: no two entries
/// share an id, wherever they stand; a composite entry lists sources; any
/// other entry has a source.
pub open spec fn entries_valid(es: Seq<Entry>) -> bool {
    &&& forall|i: int, j: int|
        0 <= i < es.len() && 0 <= j < es.len() && i != j ==> #[trigger] es[i].id@ != #[trigger] es[j].id@
    &&& forall|i: int|
        0 <= i < es.len() ==> if (#[trigger] es[i]).kind == AssetKind::CompositeAgentsMd {
            es[i].sources@.len() > 0
        } else {
            es[i].source is Some
        }
}

/// An entry list has no problem exactly when its ids are pairwise distinct
/// and every entry has what its kind needs to be synced: a duplicate id is a
/// problem however far apart the two entries are.
pub proof fn law_no_problem_iff_valid(es: Seq<Entry>)
    ensures
        (forall|i: int| 0 <= i < es.len() ==> entry_problem(es, i) is None) <==> entries_valid(es),
{
    if forall|i: int| 0 <= i < es.len() ==> entry_problem(es, i) is None {
        assert forall|i: int, j: int|
            0 <= i < es.len() && 0 <= j < es.len() && i != j implies #[trigger] es[i].id@
                != #[trigger] es[j].id@ by {
            if i < j {
                assert(entry_problem(es, j) is None);
            } else {
                assert(entry_problem(es, i) is None);
            }
        }
        assert forall|i: int| 0 <= i < es.len() implies if (#[trigger] es[i]).kind
            == AssetKind::CompositeAgentsMd {
            es[i].sources@.len() > 0
        } else {
            es[i].source is Some
        } by {
            assert(entry_problem(es, i) is None);
        }
    }
    if entries_valid(es) {
        assert forall|i: int| 0 <= i < es.len() implies entry_problem(es, i) is None by {
            assert(!exists|j: int| 0 <= j < i && #[trigger] es[j].id@ == es[i].id@);
        }
    }
}

/// Checks the manifest: entry IDs are unique, composite entries have sources,
/// other entries have a source. Reports the first problem found.
pub fn validate_manifest(manifest: &Manifest) -> (r: Result<(), ApsError>)
    ensures
        r is Ok <==> forall|i: int|
            0 <= i < manifest.entries@.len() ==> entry_problem(manifest.entries@, i) is None,
        r is Ok <==> entries_valid(manifest.entries@),
        r matches Err(e) ==> exists|i: int|
            #![trigger entry_problem(manifest.entries@, i)]
            0 <= i < manifest.entries@.len() && (forall|j: int|
                0 <= j < i ==> entry_problem(manifest.entries@, j) is None) && (entry_problem(
                manifest.entries@,
                i,
            ) matches Some(p) && reports(e, p, manifest.entries@[i].id@)),
{
    let es = &manifest.entries;
    proof {
        law_no_problem_iff_valid(es@);
    }
    let mut i: usize = 0;
    while i < es.len()
        invariant
            i <= es@.len(),
            es == manifest.entries,
            forall|j: int| 0 <= j < i ==> entry_problem(es@, j) is None,
        decreases es@.len() - i,
    {
        if seen_before(es, i) {
            assert(entry_problem(es@, i as int) == Some(ManifestProblem::DuplicateId));
            return Err(ApsError::DuplicateId { id: es[i].id.clone() });
        }
        if es[i].kind == AssetKind::CompositeAgentsMd {
            if es[i].sources.len() == 0 {
                assert(entry_problem(es@, i as int) == Some(
                    ManifestProblem::CompositeWithoutSources,
                ));
                return Err(ApsError::CompositeRequiresSources { id: es[i].id.clone() });
            }
        } else if es[i].source.is_none() {
            assert(entry_problem(es@, i as int) == Some(ManifestProblem::MissingSource));
            return Err(ApsError::EntryRequiresSource { id: es[i].id.clone() });
        }
        i = i + 1;
    }
    Ok(())
}

/// The directory of the manifest, against which relative paths are resolved.
pub fn manifest_dir(manifest_path: &str) -> (r: String)
    ensures
        match parent(manifest_path@) {
            Some(p) => r@ == p,
            None => r@ == "."@,
        },
{
    match parent_of(manifest_path) {
        Some(p) => p,
        None => String::from_str("."),
    }
}

/// What the search for a manifest does at one directory.
#[derive(Debug)]
pub enum SearchStep {
    /// The manifest is here
    Found(String),
    /// Look one level up, in this directory
    Up(String),
    /// Give up: a repository root or the filesystem root was reached
    NotFound,
}

/// One step of the search for a manifest, upward from the working
/// directory: the manifest in `dir` when there is one; otherwise stop at a
/// repository root (`dir` holds `.git`) or at the filesystem root; otherwise
/// look in the parent directory.
pub fn manifest_search_step(dir: &str, manifest_exists: bool, git_dir_exists: bool) -> (r: SearchStep)
    ensures
        manifest_exists ==> (r matches SearchStep::Found(p) && p@ == join(dir@, DEFAULT_MANIFEST_NAME@)),
        !manifest_exists && git_dir_exists ==> r is NotFound,
        !manifest_exists && !git_dir_exists ==> match parent(dir@) {
            Some(q) => r matches SearchStep::Up(x) && x@ == q,
            None => r is NotFound,
        },
{
    if manifest_exists {
        return SearchStep::Found(join_paths(dir, DEFAULT_MANIFEST_NAME));
    }
    if git_dir_exists {
        return SearchStep::NotFound;
    }
    match parent_of(dir) {
        Some(q) => SearchStep::Up(q),
        None => SearchStep::NotFound,
    }
}

} // verus!
