//! Source adapters: where an entry's content comes from.
use crate::error::{cat2, cat3, debug_strings, debug_text_of_strings, lit, string_views, ApsError};
use crate::lockfile::{LockedEntry, LockedSource};
use crate::paths::{is_absolute, is_absolute_path, join, join_paths};
use crate::text::{
    chars_of, chars_eq, ends_with, lines, lines_of, split_words, starts_with, string_of, trim,
    trim_str, views, words, str_eq,
};
use vstd::prelude::*;

verus! {

/// What holds of every shell expansion of `input` into `output`: text without
/// `$` that does not start with `~` is left as it is, and text without `$` that
/// starts with `~` keeps everything after the `~` at its end.
pub open spec fn expansion_of(input: Seq<char>, output: Seq<char>) -> bool {
    &&& (!input.contains('$') && !(input.len() > 0 && input[0] == '~')) ==> output == input
    &&& (!input.contains('$') && input.len() > 0 && input[0] == '~') ==> ends_with(
        output,
        input.skip(1),
    )
}

/// Expands shell variables (`$HOME`, `${HOME}`) and a leading `~` with
/// `shellexpand::full`, keeping the input where expansion fails. The result
/// depends on the environment and the home directory: only what holds of every
/// outcome is stated.
#[verifier::external_body]
pub fn expand_path(path: &str) -> (r: String)
    ensures
        expansion_of(path@, r@),
{
    match shellexpand::full(path) {
        Ok(s) => s.into_owned(),
        Err(_) => path.to_string(),
    }
}

/// Git metadata of a resolved source.
#[derive(Debug, Clone)]
pub struct GitInfo {
    /// Resolved ref name
    pub resolved_ref: String,
    /// Commit SHA at the resolved ref
    pub commit_sha: String,
}

/// A source resolved to a path on disk.
#[derive(Debug)]
pub struct ResolvedSource {
    /// Path to the content (file or directory)
    pub source_path: String,
    /// Display name of the source
    pub source_display: String,
    /// Whether the content is symlinked rather than copied
    pub use_symlink: bool,
    /// Git metadata, for git sources
    pub git_info: Option<GitInfo>,
}

impl ResolvedSource {
    /// A resolved filesystem source.
    pub fn filesystem(source_path: String, source_display: String, use_symlink: bool) -> (r:
        ResolvedSource)
        ensures
            r.source_path == source_path,
            r.source_display == source_display,
            r.use_symlink == use_symlink,
            r.git_info is None,
    {
        ResolvedSource { source_path, source_display, use_symlink, git_info: None }
    }

    /// A resolved git source; git content is always copied.
    pub fn git(source_path: String, source_display: String, git_info: GitInfo) -> (r:
        ResolvedSource)
        ensures
            r.source_path == source_path,
            r.source_display == source_display,
            !r.use_symlink,
            r.git_info == Some(git_info),
    {
        ResolvedSource { source_path, source_display, use_symlink: false, git_info: Some(git_info) }
    }
}

/// What every source adapter tells about itself.
pub trait SourceAdapter {
    /// The source type identifier ("git", "filesystem")
    fn source_type(&self) -> &'static str;

    /// A readable name
    fn display_name(&self) -> String;

    /// The path within the source
    fn path(&self) -> &str;

    /// Whether the source can be symlinked
    fn supports_symlink(&self) -> bool;
}

/// A local file or directory.
#[derive(Debug, Clone)]
pub struct FilesystemSource {
    /// Root directory for resolving paths
    pub root: String,
    /// Whether to symlink instead of copying
    pub symlink: bool,
    /// Optional path within the root
    pub path: Option<String>,
}

/// The path within a source: the given one, or `.`.
pub open spec fn path_or_dot(p: Option<String>) -> Seq<char> {
    match p {
        Some(x) => x@,
        None => "."@,
    }
}

/// Where a filesystem source's content is, given the expansions of its root and path.
pub open spec fn resolved_fs_path(manifest_dir: Seq<char>, root: Seq<char>, path: Seq<char>) -> Seq<
    char,
> {
    let root_path = if is_absolute(root) {
        root
    } else {
        join(manifest_dir, root)
    };
    if path == "."@ {
        root_path
    } else {
        join(root_path, path)
    }
}

impl FilesystemSource {
    pub fn new(root: String, symlink: bool, path: Option<String>) -> (r: FilesystemSource)
        ensures
            r == (FilesystemSource { root, symlink, path }),
    {
        FilesystemSource { root, symlink, path }
    }

    /// Resolves the source against the manifest directory, after shell
    /// expansion of its root and path.
    pub fn resolve(&self, manifest_dir: &str) -> (r: Result<ResolvedSource, ApsError>)
        ensures
            r matches Ok(rs) && rs.source_display@ == "filesystem:"@ + self.root@ && rs.use_symlink
                == self.symlink && rs.git_info is None && exists|er: Seq<char>, ep: Seq<char>|
                expansion_of(self.root@, er) && expansion_of(path_or_dot(self.path), ep)
                    && rs.source_path@ == resolved_fs_path(manifest_dir@, er, ep),
    {
        let p = self.path();
        let path = expand_path(p);
        let expanded_root = expand_path(self.root.as_str());
        let root_path = if is_absolute_path(expanded_root.as_str()) {
            expanded_root.clone()
        } else {
            join_paths(manifest_dir, expanded_root.as_str())
        };
        let pv = crate::text::chars_of(path.as_str());
        let dot = crate::text::chars_of(".");
        let source_path = if crate::text::chars_eq(pv.as_slice(), dot.as_slice()) {
            root_path
        } else {
            join_paths(root_path.as_str(), path.as_str())
        };
        assert(source_path@ == resolved_fs_path(manifest_dir@, expanded_root@, path@));
        let r = ResolvedSource::filesystem(source_path, self.display_name(), self.symlink);
        assert(expansion_of(self.root@, expanded_root@) && expansion_of(
            path_or_dot(self.path),
            path@,
        ));
        Ok(r)
    }
}

impl SourceAdapter for FilesystemSource {
    fn source_type(&self) -> (r: &'static str)
        ensures
            r@ == "filesystem"@,
    {
        "filesystem"
    }

    fn display_name(&self) -> (r: String)
        ensures
            r@ == "filesystem:"@ + self.root@,
    {
        cat2("filesystem:", self.root.as_str())
    }

    fn path(&self) -> (r: &str)
        ensures
            r@ == path_or_dot(self.path),
    {
        match &self.path {
            Some(p) => p.as_str(),
            None => ".",
        }
    }

    fn supports_symlink(&self) -> (r: bool)
        ensures
            r == self.symlink,
    {
        self.symlink
    }
}

/// A git repository.
#[derive(Debug, Clone)]
pub struct GitSource {
    /// Repository URL
    pub repo: String,
    /// Git ref; "auto" tries main, then master
    pub git_ref: String,
    /// Whether to clone shallowly
    pub shallow: bool,
    /// Optional path within the repository
    pub path: Option<String>,
}

impl GitSource {
    pub fn new(repo: String, git_ref: String, shallow: bool, path: Option<String>) -> (r:
        GitSource)
        ensures
            r == (GitSource { repo, git_ref, shallow, path }),
    {
        GitSource { repo, git_ref, shallow, path }
    }
}

impl SourceAdapter for GitSource {
    fn source_type(&self) -> (r: &'static str)
        ensures
            r@ == "git"@,
    {
        "git"
    }

    fn display_name(&self) -> (r: String)
        ensures
            r@ == self.repo@,
    {
        self.repo.clone()
    }

    fn path(&self) -> (r: &str)
        ensures
            r@ == path_or_dot(self.path),
    {
        match &self.path {
            Some(p) => p.as_str(),
            None => ".",
        }
    }

    /// Git content is cloned into a temporary directory and always copied.
    fn supports_symlink(&self) -> (r: bool)
        ensures
            !r,
    {
        false
    }
}

/// The adapter of a manifest source.
#[derive(Debug, Clone)]
pub enum Adapter {
    Git(GitSource),
    Filesystem(FilesystemSource),
}

impl SourceAdapter for Adapter {
    fn source_type(&self) -> (r: &'static str)
        ensures
            match *self {
                Adapter::Git(_) => r@ == "git"@,
                Adapter::Filesystem(_) => r@ == "filesystem"@,
            },
    {
        match self {
            Adapter::Git(g) => g.source_type(),
            Adapter::Filesystem(f) => f.source_type(),
        }
    }

    fn display_name(&self) -> (r: String)
        ensures
            match *self {
                Adapter::Git(g) => r@ == g.repo@,
                Adapter::Filesystem(f) => r@ == "filesystem:"@ + f.root@,
            },
    {
        match self {
            Adapter::Git(g) => g.display_name(),
            Adapter::Filesystem(f) => f.display_name(),
        }
    }

    fn path(&self) -> (r: &str)
        ensures
            match *self {
                Adapter::Git(g) => r@ == path_or_dot(g.path),
                Adapter::Filesystem(f) => r@ == path_or_dot(f.path),
            },
    {
        match self {
            Adapter::Git(g) => g.path(),
            Adapter::Filesystem(f) => f.path(),
        }
    }

    fn supports_symlink(&self) -> (r: bool)
        ensures
            match *self {
                Adapter::Git(_) => !r,
                Adapter::Filesystem(f) => r == f.symlink,
            },
    {
        match self {
            Adapter::Git(g) => g.supports_symlink(),
            Adapter::Filesystem(f) => f.supports_symlink(),
        }
    }
}

impl ResolvedSource {
    /// The lockfile record of installing this source at `dest_path`.
    pub fn to_locked_entry(&self, dest_path: &str, checksum: String, symlinked_items: Vec<
        String,
    >) -> (r: LockedEntry)
        ensures
            r.source matches LockedSource::Simple(s) && s@ == self.source_display@,
            r.dest@ == dest_path@,
            r.checksum == checksum,
            match self.git_info {
                Some(g) => {
                    &&& r.resolved_ref == Some(g.resolved_ref)
                    &&& r.commit == Some(g.commit_sha)
                    &&& !r.is_symlink
                    &&& r.target_path is None
                    &&& r.symlinked_items@.len() == 0
                },
                None => {
                    &&& r.resolved_ref is None
                    &&& r.commit is None
                    &&& r.is_symlink == self.use_symlink
                    &&& (if self.use_symlink {
                        r.target_path matches Some(t) && t@ == self.source_path@
                    } else {
                        r.target_path is None
                    })
                    &&& r.symlinked_items == symlinked_items
                },
            },
    {
        match &self.git_info {
            Some(g) => LockedEntry::new_git(
                self.source_display.as_str(),
                dest_path,
                g.resolved_ref.clone(),
                g.commit_sha.clone(),
                checksum,
            ),
            None => {
                let target_path = if self.use_symlink {
                    Some(self.source_path.clone())
                } else {
                    None
                };
                LockedEntry::new_filesystem(
                    self.source_display.as_str(),
                    dest_path,
                    checksum,
                    self.use_symlink,
                    target_path,
                    symlinked_items,
                )
            },
        }
    }
}

/// A repository cloned into a working directory: where the clone is, the ref
/// checked out and the commit it points at.
#[derive(Debug, Clone)]
pub struct ResolvedGitSource {
    /// Path to the cloned repository
    pub repo_path: String,
    /// Resolved ref name
    pub resolved_ref: String,
    /// Commit SHA at the resolved ref
    pub commit_sha: String,
}

/// The branches a clone tries, in order: `auto` tries `main`, then `master`.
pub open spec fn refs_for(git_ref: Seq<char>) -> Seq<Seq<char>> {
    if git_ref == "auto"@ {
        seq!["main"@, "master"@]
    } else {
        seq![git_ref]
    }
}

/// The branches a clone of `git_ref` tries, in order.
pub fn refs_to_try(git_ref: &str) -> (r: Vec<String>)
    ensures
        string_views(r@) == refs_for(git_ref@),
{
    let mut r: Vec<String> = Vec::new();
    if crate::text::str_eq(git_ref, "auto") {
        r.push(lit("main"));
        r.push(lit("master"));
        assert(string_views(r@) =~= seq!["main"@, "master"@]);
    } else {
        r.push(lit(git_ref));
        assert(string_views(r@) =~= seq![git_ref@]);
    }
    r
}

/// Where content at `path` lies within a clone at `repo`.
pub open spec fn path_in_repo(repo: Seq<char>, path: Seq<char>) -> Seq<char> {
    if path == "."@ {
        repo
    } else {
        join(repo, path)
    }
}

/// The optional path of a source, or `.`.
pub open spec fn opt_path_or_dot(p: Option<&str>) -> Seq<char> {
    match p {
        Some(x) => x@,
        None => "."@,
    }
}

/// A git source resolved within its clone: the path (after shell expansion)
/// inside the clone, displayed by the repository URL, never symlinked.
pub fn resolve_in_clone(clone: &ResolvedGitSource, repo: &str, path: Option<&str>) -> (r:
    ResolvedSource)
    ensures
        exists|ep: Seq<char>|
            expansion_of(opt_path_or_dot(path), ep) && r.source_path@ == path_in_repo(
                clone.repo_path@,
                ep,
            ),
        r.source_display@ == repo@,
        !r.use_symlink,
        r.git_info == Some(
            GitInfo { resolved_ref: clone.resolved_ref, commit_sha: clone.commit_sha },
        ),
{
    let p = match path {
        Some(x) => x,
        None => ".",
    };
    let expanded = expand_path(p);
    let source_path = if crate::text::str_eq(expanded.as_str(), ".") {
        clone.repo_path.clone()
    } else {
        join_paths(clone.repo_path.as_str(), expanded.as_str())
    };
    let info = GitInfo {
        resolved_ref: clone.resolved_ref.clone(),
        commit_sha: clone.commit_sha.clone(),
    };
    assert(expansion_of(opt_path_or_dot(path), expanded@));
    ResolvedSource::git(source_path, lit(repo), info)
}

impl GitSource {
    /// This source resolved within its clone.
    pub fn resolve(&self, clone: &ResolvedGitSource) -> (r: ResolvedSource)
        ensures
            exists|ep: Seq<char>|
                expansion_of(path_or_dot(self.path), ep) && r.source_path@ == path_in_repo(
                    clone.repo_path@,
                    ep,
                ),
            r.source_display@ == self.repo@,
            !r.use_symlink,
            r.git_info == Some(
                GitInfo { resolved_ref: clone.resolved_ref, commit_sha: clone.commit_sha },
            ),
    {
        let p: Option<&str> = match &self.path {
            Some(x) => Some(x.as_str()),
            None => None,
        };
        resolve_in_clone(clone, self.repo.as_str(), p)
    }
}

/// The error when every ref failed to clone: the refs tried and, when there
/// is one, the last error text, trimmed.
pub fn clone_failure(refs: &Vec<String>, last_error: Option<&str>) -> (r: ApsError)
    ensures
        r matches ApsError::GitError { message } && message@ == "Failed to clone with refs "@
            + debug_text_of_strings(string_views(refs@)) + match last_error {
            Some(e) => ": "@ + trim(e@),
            None => Seq::<char>::empty(),
        },
{
    let listed = debug_strings(refs);
    let detail = match last_error {
        Some(e) => {
            let t = trim_str(e);
            cat2(": ", t.as_str())
        },
        None => String::new(),
    };
    ApsError::GitError {
        message: cat3("Failed to clone with refs ", listed.as_str(), detail.as_str()),
    }
}

/// The commit a `git ls-remote` answer names: the first word of its first line.
pub open spec fn remote_sha_of(stdout: Seq<char>) -> Option<Seq<char>> {
    let ls = lines_of(stdout);
    if ls.len() > 0 && words(ls[0]).len() > 0 {
        Some(words(ls[0])[0])
    } else {
        None
    }
}

/// Reads the commit out of `git ls-remote` output (`<sha>\t<ref>` lines).
pub fn parse_remote_sha(stdout: &str) -> (r: Option<String>)
    ensures
        match remote_sha_of(stdout@) {
            Some(x) => r matches Some(y) && y@ == x,
            None => r is None,
        },
{
    let v = chars_of(stdout);
    let ls = lines(v.as_slice());
    if ls.len() == 0 {
        return None;
    }
    let ws = split_words(ls[0].as_slice());
    assert(views(ls@)[0] == ls@[0]@);
    if ws.len() == 0 {
        return None;
    }
    assert(views(ws@)[0] == ws@[0]@);
    Some(string_of(ws[0].as_slice()))
}

/// What a clone was made for.
#[derive(Debug, Clone)]
pub enum CloneKey {
    /// The head of a branch, cloned shallowly or fully
    Latest { repo: String, git_ref: String, shallow: bool },
    /// A locked commit, with the ref it was resolved from
    Commit { repo: String, commit_sha: String, resolved_ref: String },
}

/// What a clone was made for, as text.
pub enum CloneKeyView {
    Latest(Seq<char>, Seq<char>, bool),
    Commit(Seq<char>, Seq<char>, Seq<char>),
}

impl View for CloneKey {
    type V = CloneKeyView;

    open spec fn view(&self) -> CloneKeyView {
        match self {
            CloneKey::Latest { repo, git_ref, shallow } => CloneKeyView::Latest(repo@, git_ref@, *shallow),
            CloneKey::Commit { repo, commit_sha, resolved_ref } => CloneKeyView::Commit(
                repo@,
                commit_sha@,
                resolved_ref@,
            ),
        }
    }
}

/// Whether two keys name the same clone.
fn same_key(a: &CloneKey, b: &CloneKey) -> (r: bool)
    ensures
        r == (a@ == b@),
{
    match (a, b) {
        (
            CloneKey::Latest { repo: r1, git_ref: g1, shallow: s1 },
            CloneKey::Latest { repo: r2, git_ref: g2, shallow: s2 },
        ) => str_eq(r1.as_str(), r2.as_str()) && str_eq(g1.as_str(), g2.as_str()) && *s1 == *s2,
        (
            CloneKey::Commit { repo: r1, commit_sha: c1, resolved_ref: f1 },
            CloneKey::Commit { repo: r2, commit_sha: c2, resolved_ref: f2 },
        ) => str_eq(r1.as_str(), r2.as_str()) && str_eq(c1.as_str(), c2.as_str()) && str_eq(
            f1.as_str(),
            f2.as_str(),
        ),
        _ => false,
    }
}

/// The clone recorded first for a key, if any.
pub open spec fn cached(s: Seq<(CloneKeyView, ResolvedGitSource)>, k: CloneKeyView) -> Option<
    ResolvedGitSource,
>
    decreases s.len(),
{
    if s.len() == 0 {
        None
    } else if s[0].0 == k {
        Some(s[0].1)
    } else {
        cached(s.drop_first(), k)
    }
}

/// The clones made during one run, so that each repository and ref (or
/// locked commit) is cloned once.
pub struct GitCloneCache {
    clones: Vec<(CloneKey, ResolvedGitSource)>,
}

impl GitCloneCache {
    /// The clones recorded, in the order they were made.
    pub closed spec fn view(&self) -> Seq<(CloneKeyView, ResolvedGitSource)> {
        self.clones@.map_values(|p: (CloneKey, ResolvedGitSource)| (p.0@, p.1))
    }

    /// No clones yet.
    pub fn new() -> (r: GitCloneCache)
        ensures
            r.view() == Seq::<(CloneKeyView, ResolvedGitSource)>::empty(),
    {
        let r = GitCloneCache { clones: Vec::new() };
        assert(r.view() =~= Seq::<(CloneKeyView, ResolvedGitSource)>::empty());
        r
    }

    /// The clone made for `key`, if there is one.
    pub fn get(&self, key: &CloneKey) -> (r: Option<&ResolvedGitSource>)
        ensures
            match cached(self.view(), key@) {
                Some(c) => r matches Some(x) && *x == c,
                None => r is None,
            },
    {
        let mut i: usize = 0;
        assert(self.view().skip(0) =~= self.view());
        while i < self.clones.len()
            invariant
                i <= self.clones@.len(),
                self.view().len() == self.clones@.len(),
                cached(self.view(), key@) == cached(self.view().skip(i as int), key@),
            decreases self.clones@.len() - i,
        {
            let ghost rest = self.view().skip(i as int);
            assert(rest[0] == (self.clones@[i as int].0@, self.clones@[i as int].1));
            if same_key(&self.clones[i].0, key) {
                return Some(&self.clones[i].1);
            }
            assert(rest.drop_first() =~= self.view().skip(i + 1));
            i = i + 1;
        }
        assert(self.view().skip(i as int) =~= Seq::<(CloneKeyView, ResolvedGitSource)>::empty());
        None
    }

    /// Records the clone made for `key`.
    pub fn insert(&mut self, key: CloneKey, clone: ResolvedGitSource)
        ensures
            final(self).view() == old(self).view().push((key@, clone)),
    {
        let ghost k = key@;
        self.clones.push((key, clone));
        assert(self.view() =~= old(self).view().push((k, clone)));
    }
}

/// A clone is made once per run: after a clone is recorded for a key that
/// had none, looking the key up gives that clone, and recording more
/// clones never changes what an earlier key gives.
pub proof fn law_clone_reused(s: Seq<(CloneKeyView, ResolvedGitSource)>, k: CloneKeyView, x: (CloneKeyView, ResolvedGitSource))
    ensures
        cached(s, k) is Some ==> cached(s.push(x), k) == cached(s, k),
        cached(s, k) is None && x.0 == k ==> cached(s.push(x), k) == Some(x.1),
    decreases s.len(),
{
    if s.len() > 0 {
        assert(s.push(x).drop_first() =~= s.drop_first().push(x));
        assert(s.push(x)[0] == s[0]);
        law_clone_reused(s.drop_first(), k, x);
    } else {
        assert(s.push(x).drop_first() =~= Seq::<(CloneKeyView, ResolvedGitSource)>::empty());
    }
}

} // verus!
