//! The decisions the commands take: what an `add` target is, which entries
//! a discovery adds or removes, which entries a sync installs, what the
//! lockfile records afterwards, and how entries are listed.
use crate::cli::{asset_kind_of, AddAssetKind};
use crate::discover::DiscoveredSkill;
use crate::error::{cat2, cat3, cat4, debug_string, debug_text_of, error_text, lit, string_views, ApsError};
use crate::github_url::{last_component, parse_github_url, skill_path_of, ParsedGitHubUrl};
use crate::install::InstallResult;
use crate::lockfile::{LockedEntry, Lockfile};
use crate::manifest::{default_dest_of, is_composite_entry, AssetKind, Entry, Manifest, Source};
use crate::paths::{file_name, file_name_of, is_absolute, is_absolute_path, join, join_paths};
use crate::sources::{expand_path, expansion_of};
use crate::text::{
    chars_of, has_prefix, has_suffix, lines, lines_of, occurs, slice_copy, starts_with, str_eq,
    string_of, strip_all_suffix, trim, trim_chars, trim_end_matches, views, lemma_first_index_of,
    lemma_first_index_props, lemma_lines_concat, first_index_of, strip_cr, decimal, decimal_text,
};
use vstd::prelude::*;

verus! {

/// Whether the text is plainly a filesystem path.
pub open spec fn looks_local(s: Seq<char>) -> bool {
    ||| starts_with(s, "/"@)
    ||| starts_with(s, "~/"@)
    ||| starts_with(s, "./"@)
    ||| starts_with(s, "../"@)
    ||| starts_with(s, "~"@)
    ||| starts_with(s, "$HOME"@)
    ||| starts_with(s, "$USER"@)
    ||| starts_with(s, "${"@)
}

/// Whether an `add` target is a local path: plainly one, or text without a
/// URL scheme that names something on disk.
pub open spec fn is_local(s: Seq<char>, exists_on_disk: bool) -> bool {
    looks_local(s) || (!occurs(s, "://"@) && exists_on_disk)
}

/// Whether an `add` target is a local path; `exists_on_disk` tells whether the
/// expanded text names something on disk (consulted only for text that is
/// neither plainly a path nor a URL).
pub fn is_local_path(input: &str, exists_on_disk: bool) -> (r: bool)
    ensures
        r == is_local(input@, exists_on_disk),
{
    let v = chars_of(input);
    let local = has_prefix(v.as_slice(), chars_of("/").as_slice()) || has_prefix(
        v.as_slice(),
        chars_of("~/").as_slice(),
    ) || has_prefix(v.as_slice(), chars_of("./").as_slice()) || has_prefix(
        v.as_slice(),
        chars_of("../").as_slice(),
    ) || has_prefix(v.as_slice(), chars_of("~").as_slice()) || has_prefix(
        v.as_slice(),
        chars_of("$HOME").as_slice(),
    ) || has_prefix(v.as_slice(), chars_of("$USER").as_slice()) || has_prefix(
        v.as_slice(),
        chars_of("${").as_slice(),
    );
    if local {
        return true;
    }
    let scheme = crate::text::find(v.as_slice(), chars_of("://").as_slice());
    scheme.is_none() && exists_on_disk
}

/// Where an `add` target path points: its shell expansion, made absolute
/// against the working directory when relative.
pub open spec fn target_path_of(expanded: Seq<char>, cwd: Seq<char>) -> Seq<char> {
    if is_absolute(expanded) {
        expanded
    } else {
        join(cwd, expanded)
    }
}

/// Where an `add` target path points.
pub fn add_target_path(url_or_path: &str, cwd: &str) -> (r: String)
    ensures
        exists|e: Seq<char>| expansion_of(url_or_path@, e) && r@ == target_path_of(e, cwd@),
{
    let expanded = expand_path(url_or_path);
    if is_absolute_path(expanded.as_str()) {
        expanded
    } else {
        join_paths(cwd, expanded.as_str())
    }
}

/// What an `add` target is.
#[derive(Debug)]
pub enum ParsedAddTarget {
    /// A GitHub URL of one skill
    GitHubSkill {
        repo_url: String,
        git_ref: String,
        skill_path: String,
        skill_name: Option<String>,
    },
    /// A GitHub URL to search for skills
    GitHubDiscovery { repo_url: String, git_ref: String, search_path: String },
    /// A local directory to search for skills
    FilesystemDiscovery {
        /// The path as given (shell variables kept)
        original_path: String,
    },
    /// A local directory of one skill
    FilesystemSkill {
        /// The path as given
        original_path: String,
        skill_name: String,
    },
}

/// What an `add` target is. `exists_on_disk` tells whether the expanded target
/// names something on disk, `cwd` is the working directory, and
/// `has_skill_md` whether the target directory holds a SKILL.md (or
/// skill.md). A local directory with a SKILL.md is one skill unless `--all`;
/// other local directories are searched; text that is neither a local path
/// nor a URL is refused; URLs are read as GitHub URLs, searched when they
/// name a whole repository or with `--all`.
pub fn parse_add_target(
    url_or_path: &str,
    all_flag: bool,
    exists_on_disk: bool,
    cwd: &str,
    has_skill_md: bool,
) -> (r: Result<ParsedAddTarget, ApsError>)
    ensures
        is_local(url_or_path@, exists_on_disk) && has_skill_md && !all_flag ==> (r matches Ok(
            ParsedAddTarget::FilesystemSkill { original_path, skill_name },
        ) && original_path@ == url_or_path@ && exists|e: Seq<char>|
            expansion_of(url_or_path@, e) && skill_name@ == match file_name(
                target_path_of(e, cwd@),
            ) {
                Some(n) => n,
                None => "unnamed"@,
            }),
        is_local(url_or_path@, exists_on_disk) && !(has_skill_md && !all_flag) ==> (r matches Ok(
            ParsedAddTarget::FilesystemDiscovery { original_path },
        ) && original_path@ == url_or_path@),
        !is_local(url_or_path@, exists_on_disk) && !occurs(url_or_path@, "://"@) ==> (r matches Err(
            ApsError::InvalidInput { message },
        ) && exists|e: Seq<char>|
            expansion_of(url_or_path@, e) && message@ == "Path '"@ + e
                + "' does not exist; provide an existing local path or a valid URL"@),
        !is_local(url_or_path@, exists_on_disk) && occurs(url_or_path@, "://"@) ==> match r {
            Ok(ParsedAddTarget::GitHubDiscovery { repo_url, git_ref, search_path }) => exists|
                p: ParsedGitHubUrl,
            |
                crate::github_url::matches_outcome(
                    Ok::<ParsedGitHubUrl, ApsError>(p),
                    trim(url_or_path@),
                    crate::github_url::github_url_meaning(url_or_path@),
                ) && (p.is_repo_level || all_flag) && repo_url@ == p.repo_url@ && git_ref@
                    == p.git_ref@ && search_path@ == p.path@,
            Ok(ParsedAddTarget::GitHubSkill { repo_url, git_ref, skill_path, skill_name }) => exists|
                p: ParsedGitHubUrl,
            |
                crate::github_url::matches_outcome(
                    Ok::<ParsedGitHubUrl, ApsError>(p),
                    trim(url_or_path@),
                    crate::github_url::github_url_meaning(url_or_path@),
                ) && !(p.is_repo_level || all_flag) && repo_url@ == p.repo_url@ && git_ref@
                    == p.git_ref@ && skill_path@ == skill_path_of(p.path@, p.is_skill_file)
                    && match last_component(skill_path_of(p.path@, p.is_skill_file)) {
                    Some(c) => skill_name matches Some(x) && x@ == c,
                    None => skill_name is None,
                },
            Ok(_) => false,
            Err(e) => crate::github_url::matches_outcome(
                Err::<ParsedGitHubUrl, ApsError>(e),
                trim(url_or_path@),
                crate::github_url::github_url_meaning(url_or_path@),
            ),
        },
{
    if is_local_path(url_or_path, exists_on_disk) {
        if has_skill_md && !all_flag {
            let target = add_target_path(url_or_path, cwd);
            let skill_name = match file_name_of(target.as_str()) {
                Some(n) => n,
                None => lit("unnamed"),
            };
            return Ok(
                ParsedAddTarget::FilesystemSkill { original_path: lit(url_or_path), skill_name },
            );
        }
        return Ok(ParsedAddTarget::FilesystemDiscovery { original_path: lit(url_or_path) });
    }
    let v = chars_of(url_or_path);
    if crate::text::find(v.as_slice(), chars_of("://").as_slice()).is_none() {
        let expanded = expand_path(url_or_path);
        return Err(
            ApsError::InvalidInput {
                message: cat3(
                    "Path '",
                    expanded.as_str(),
                    "' does not exist; provide an existing local path or a valid URL",
                ),
            },
        );
    }
    let parsed = match parse_github_url(url_or_path) {
        Ok(p) => p,
        Err(e) => {
            return Err(e);
        },
    };
    let ghost gp = parsed;
    if parsed.is_repo_level || all_flag {
        Ok(
            ParsedAddTarget::GitHubDiscovery {
                repo_url: parsed.repo_url,
                git_ref: parsed.git_ref,
                search_path: parsed.path,
            },
        )
    } else {
        let skill_path = lit(parsed.skill_path());
        let skill_name = match parsed.skill_name() {
            Some(n) => Some(lit(n)),
            None => None,
        };
        Ok(
            ParsedAddTarget::GitHubSkill {
                repo_url: parsed.repo_url,
                git_ref: parsed.git_ref,
                skill_path,
                skill_name,
            },
        )
    }
}

/// The backup directory entry of `.gitignore`.
pub open spec fn has_backup_line(existing: Seq<char>) -> bool {
    exists|i: int| 0 <= i < lines_of(existing).len() && trim(#[trigger] lines_of(existing)[i]) == ".aps-backups/"@
}

/// What `init` appends to `.gitignore`: nothing when it already lists the
/// backup directory; else a newline when the file does not end with one, a
/// comment line and the backup directory.
pub open spec fn gitignore_addition_of(existing: Seq<char>) -> Option<Seq<char>> {
    if has_backup_line(existing) {
        None
    } else {
        let lead = if existing.len() > 0 && existing.last() != '\n' {
            "\n"@
        } else {
            Seq::empty()
        };
        Some(lead + "\n# APS (Agentic Prompt Sync)\n"@ + ".aps-backups/\n"@)
    }
}

/// Running `init` twice adds the backup entry to `.gitignore` only once:
/// once the addition is appended, nothing more is added.
pub proof fn law_gitignore_addition_once(existing: Seq<char>)
    ensures
        gitignore_addition_of(existing) matches Some(t) ==> gitignore_addition_of(existing + t) is None,
{
    if let Some(t) = gitignore_addition_of(existing) {
        reveal_strlit("\n");
        reveal_strlit("\n# APS (Agentic Prompt Sync)\n");
        reveal_strlit(".aps-backups/\n");
        reveal_strlit(".aps-backups/");
        let lead = if existing.len() > 0 && existing.last() != '\n' {
            "\n"@
        } else {
            Seq::empty()
        };
        let head = existing + lead + "\n# APS (Agentic Prompt Sync)\n"@;
        let q = ".aps-backups/\n"@;
        assert(existing + t =~= head + q);
        assert(head.last() == '\n');
        lemma_lines_concat(head, q);
        assert(forall|j: int| 0 <= j < 13 ==> q[j] != '\n');
        lemma_first_index_props(q, '\n');
        lemma_first_index_of(q, '\n', 13);
        assert(q.take(13) =~= ".aps-backups/"@);
        assert(q.skip(14) =~= Seq::<char>::empty());
        assert(q.len() == 14 && q[13] == '\n');
        assert(first_index_of(q, '\n') == Some(13int));
        assert(lines_of(q.skip(14)) == Seq::<Seq<char>>::empty());
        assert(strip_cr(q.take(13)) == q.take(13));
        assert(lines_of(q) == seq![strip_cr(q.take(13))] + lines_of(q.skip(14)));
        assert(lines_of(q) =~= seq![".aps-backups/"@]);
        let all = lines_of(head + q);
        assert(all[lines_of(head).len() as int] == ".aps-backups/"@);
        assert(trim(".aps-backups/"@) == ".aps-backups/"@);
        assert(has_backup_line(existing + t));
    }
}

/// What `init` appends to `.gitignore`, if anything.
pub fn gitignore_addition(existing: &str) -> (r: Option<String>)
    ensures
        match gitignore_addition_of(existing@) {
            Some(t) => r matches Some(x) && x@ == t,
            None => r is None,
        },
{
    let v = chars_of(existing);
    let ls = lines(v.as_slice());
    let entry = chars_of(".aps-backups/");
    let mut i: usize = 0;
    while i < ls.len()
        invariant
            i <= ls@.len(),
            views(ls@) == lines_of(existing@),
            entry@ == ".aps-backups/"@,
            forall|j: int| 0 <= j < i ==> trim(#[trigger] lines_of(existing@)[j]) != ".aps-backups/"@,
        decreases ls@.len() - i,
    {
        assert(views(ls@)[i as int] == ls@[i as int]@);
        let t = trim_chars(ls[i].as_slice());
        if crate::text::chars_eq(t.as_slice(), entry.as_slice()) {
            return None;
        }
        i = i + 1;
    }
    let n = v.len();
    let lead = if n > 0 && v[n - 1] != '\n' {
        "\n"
    } else {
        ""
    };
    proof {
        reveal_strlit("");
        reveal_strlit("\n");
    }
    Some(cat3(lead, "\n# APS (Agentic Prompt Sync)\n", ".aps-backups/\n"))
}

/// The destination of a skill entry: the kind's default directory, then the
/// entry id, with a trailing `/`.
pub open spec fn skill_dest_of(kind: AssetKind, id: Seq<char>) -> Seq<char> {
    strip_all_suffix(default_dest_of(kind), "/"@) + "/"@ + id + "/"@
}

/// The destination of a skill entry.
pub fn skill_dest(kind: AssetKind, entry_id: &str) -> (r: String)
    ensures
        r@ == skill_dest_of(kind, entry_id@),
{
    let d = kind.default_dest();
    let dv = chars_of(d.as_str());
    let t = trim_end_matches(dv.as_slice(), chars_of("/").as_slice());
    let ts = string_of(t.as_slice());
    cat4(ts.as_str(), "/", entry_id, "/")
}

/// A manifest entry for one skill.
pub fn skill_entry(id: String, kind: AssetKind, source: Source) -> (r: Entry)
    ensures
        r.id == id,
        r.kind == kind,
        r.source == Some(source),
        r.sources@.len() == 0,
        r.dest matches Some(d) && d@ == skill_dest_of(kind, id@),
        r.include_prefixes@.len() == 0,
{
    let dest = skill_dest(kind, id.as_str());
    Entry {
        id,
        kind,
        source: Some(source),
        sources: Vec::new(),
        dest: Some(dest),
        include_prefixes: Vec::new(),
    }
}

/// The id of an entry added for one skill: the given id, else the skill's
/// name, else `unnamed-skill`.
pub fn single_skill_id(given: Option<String>, skill_name: Option<String>) -> (r: String)
    ensures
        r@ == match given {
            Some(g) => g@,
            None => match skill_name {
                Some(n) => n@,
                None => "unnamed-skill"@,
            },
        },
{
    match given {
        Some(g) => g,
        None => match skill_name {
            Some(n) => n,
            None => lit("unnamed-skill"),
        },
    }
}

/// Where discovered skills come from.
#[derive(Debug, Clone)]
pub enum SkillOrigin {
    /// A git repository at a ref
    Git { repo: String, git_ref: String },
    /// A local directory (as given, shell variables kept)
    Filesystem { root: String },
}

/// The source of a skill at `path` within an origin: a shallow git source,
/// or a symlinked filesystem source.
pub fn skill_source(origin: &SkillOrigin, path: Option<String>) -> (r: Source)
    ensures
        match *origin {
            SkillOrigin::Git { repo, git_ref } => r == (Source::Git {
                repo,
                git_ref,
                shallow: true,
                path,
            }),
            SkillOrigin::Filesystem { root } => r == (Source::Filesystem { root, symlink: true, path }),
        },
{
    match origin {
        SkillOrigin::Git { repo, git_ref } => Source::Git {
            repo: repo.clone(),
            git_ref: git_ref.clone(),
            shallow: true,
            path,
        },
        SkillOrigin::Filesystem { root } => Source::Filesystem {
            root: root.clone(),
            symlink: true,
            path,
        },
    }
}

/// The ids of the entries of a manifest, in order.
pub open spec fn ids_of(es: Seq<Entry>) -> Seq<Seq<char>> {
    es.map_values(|e: Entry| e.id@)
}

/// Whether a manifest has an entry with this id.
pub fn has_entry(manifest: &Manifest, id: &str) -> (r: bool)
    ensures
        r == ids_of(manifest.entries@).contains(id@),
{
    let mut i: usize = 0;
    while i < manifest.entries.len()
        invariant
            i <= manifest.entries@.len(),
            forall|j: int| 0 <= j < i ==> manifest.entries@[j].id@ != id@,
        decreases manifest.entries@.len() - i,
    {
        if str_eq(manifest.entries[i].id.as_str(), id) {
            assert(ids_of(manifest.entries@)[i as int] == id@);
            return true;
        }
        i = i + 1;
    }
    assert(!ids_of(manifest.entries@).contains(id@)) by {
        if ids_of(manifest.entries@).contains(id@) {
            let j = choose|j: int| 0 <= j < manifest.entries@.len() && ids_of(manifest.entries@)[j] == id@;
            assert(manifest.entries@[j].id@ == id@);
        }
    }
    false
}

/// The error for adding an id that the manifest (if there is one) has.
pub fn check_duplicate_id(manifest: Option<&Manifest>, entry_id: &str) -> (r: Result<(), ApsError>)
    ensures
        match manifest {
            Some(m) => if ids_of(m.entries@).contains(entry_id@) {
                r matches Err(ApsError::DuplicateId { id }) && id@ == entry_id@
            } else {
                r is Ok
            },
            None => r is Ok,
        },
{
    match manifest {
        Some(m) => if has_entry(m, entry_id) {
            Err(ApsError::DuplicateId { id: lit(entry_id) })
        } else {
            Ok(())
        },
        None => Ok(()),
    }
}

/// The ids of a manifest's entries.
pub fn entry_ids(manifest: &Manifest) -> (r: Vec<String>)
    ensures
        string_views(r@) == ids_of(manifest.entries@),
{
    let mut r: Vec<String> = Vec::new();
    let mut i: usize = 0;
    while i < manifest.entries.len()
        invariant
            i <= manifest.entries@.len(),
            string_views(r@) == ids_of(manifest.entries@).take(i as int),
        decreases manifest.entries@.len() - i,
    {
        let ghost before = string_views(r@);
        r.push(manifest.entries[i].id.clone());
        assert(string_views(r@) =~= before.push(manifest.entries@[i as int].id@));
        assert(ids_of(manifest.entries@).take(i + 1) =~= ids_of(manifest.entries@).take(i as int).push(
            manifest.entries@[i as int].id@,
        ));
        i = i + 1;
    }
    assert(ids_of(manifest.entries@).take(manifest.entries@.len() as int) =~= ids_of(
        manifest.entries@,
    ));
    r
}

/// Adding entries to a manifest: each new one whose id is not yet there (also
/// among those just added) is appended; the rest are skipped. The manifest
/// entries after the first `n` new ones, and the ids added and skipped.
pub open spec fn merged(es: Seq<Entry>, new: Seq<Entry>, n: int) -> (Seq<Entry>, Seq<Seq<char>>, Seq<
    Seq<char>,
>)
    decreases n,
{
    if n <= 0 {
        (es, Seq::empty(), Seq::empty())
    } else {
        let (m, added, skipped) = merged(es, new, n - 1);
        let e = new[n - 1];
        if ids_of(m).contains(e.id@) {
            (m, added, skipped.push(e.id@))
        } else {
            (m.push(e), added.push(e.id@), skipped)
        }
    }
}

/// Appends the entries whose ids are new; returns the ids added and skipped.
pub fn merge_new_entries(manifest: &mut Manifest, entries: Vec<Entry>) -> (r: (Vec<String>, Vec<String>))
    ensures
        ({
            let (m, added, skipped) = merged(old(manifest).entries@, entries@, entries@.len() as int);
            &&& final(manifest).entries@ == m
            &&& string_views(r.0@) == added
            &&& string_views(r.1@) == skipped
        }),
{
    let mut added: Vec<String> = Vec::new();
    let mut skipped: Vec<String> = Vec::new();
    let mut rest = entries;
    let ghost all = rest@;
    let ghost start = manifest.entries@;
    let mut i: usize = 0;
    let n = rest.len();
    while i < n
        invariant
            n == all.len(),
            i <= n,
            rest@ == all.skip(i as int),
            manifest.entries@ == merged(start, all, i as int).0,
            string_views(added@) == merged(start, all, i as int).1,
            string_views(skipped@) == merged(start, all, i as int).2,
        decreases n - i,
    {
        let ghost before = rest@;
        let e = rest.remove(0);
        assert(before[0] == all[i as int] && rest@ =~= all.skip(i + 1));
        let ghost sa = string_views(added@);
        let ghost ss = string_views(skipped@);
        if has_entry(manifest, e.id.as_str()) {
            skipped.push(e.id.clone());
            assert(string_views(skipped@) =~= ss.push(all[i as int].id@));
        } else {
            added.push(e.id.clone());
            assert(string_views(added@) =~= sa.push(all[i as int].id@));
            manifest.entries.push(e);
        }
        i = i + 1;
    }
    (added, skipped)
}

/// Merging new entries into a manifest keeps its entries first and in place,
/// never lets an id occur twice, and leaves every new entry's id in the
/// manifest, either added or found there already.
pub proof fn law_merge_keeps_ids_unique(es: Seq<Entry>, new: Seq<Entry>, n: int)
    requires
        0 <= n <= new.len(),
        ids_of(es).no_duplicates(),
    ensures
        ({
            let (m, added, skipped) = merged(es, new, n);
            &&& ids_of(m).no_duplicates()
            &&& m.take(es.len() as int) == es
            &&& es.len() <= m.len()
            &&& forall|k: int| 0 <= k < n ==> ids_of(m).contains(#[trigger] new[k].id@)
            &&& added.len() + skipped.len() == n
        }),
    decreases n,
{
    if n > 0 {
        law_merge_keeps_ids_unique(es, new, n - 1);
        let (m0, a0, s0) = merged(es, new, n - 1);
        let e = new[n - 1];
        if !ids_of(m0).contains(e.id@) {
            let m = m0.push(e);
            assert(ids_of(m) =~= ids_of(m0).push(e.id@));
            assert(ids_of(m).no_duplicates()) by {
                assert forall|i: int, j: int|
                    0 <= i < ids_of(m).len() && 0 <= j < ids_of(m).len() && i != j implies ids_of(m)[i]
                    != ids_of(m)[j] by {
                    if i == m0.len() as int {
                        assert(ids_of(m)[j] == ids_of(m0)[j]);
                        assert(ids_of(m0).contains(ids_of(m0)[j]));
                    } else if j == m0.len() as int {
                        assert(ids_of(m)[i] == ids_of(m0)[i]);
                        assert(ids_of(m0).contains(ids_of(m0)[i]));
                    } else {
                        assert(ids_of(m)[i] == ids_of(m0)[i] && ids_of(m)[j] == ids_of(m0)[j]);
                    }
                }
            }
            assert(m.take(es.len() as int) =~= m0.take(es.len() as int));
            assert forall|k: int| 0 <= k < n implies ids_of(m).contains(#[trigger] new[k].id@) by {
                if k < n - 1 {
                    let j = choose|j: int| 0 <= j < ids_of(m0).len() && ids_of(m0)[j] == new[k].id@;
                    assert(ids_of(m)[j] == new[k].id@);
                } else {
                    assert(ids_of(m)[m0.len() as int] == e.id@);
                }
            }
        }
    }
}

/// `sync --only` installs the chosen entries in manifest order: the
/// positions selected are increasing, each names an entry whose id was asked
/// for, and every asked-for id of the manifest is selected.
pub proof fn law_sync_selection_in_manifest_order(es: Seq<Entry>, only: Seq<Seq<char>>, n: int)
    requires
        0 <= n <= es.len(),
        es.len() <= usize::MAX,
    ensures
        ({
            let p = selected_positions(es, only, n);
            &&& forall|i: int, j: int| 0 <= i < j < p.len() ==> #[trigger] p[i] < #[trigger] p[j]
            &&& forall|i: int|
                0 <= i < p.len() ==> (#[trigger] p[i]) < n && (only.len() == 0 || only.contains(
                    es[p[i] as int].id@,
                ))
            &&& forall|k: int|
                0 <= k < n && (only.len() == 0 || only.contains(es[k].id@)) ==> p.contains(k as usize)
        }),
    decreases n,
{
    if n > 0 {
        law_sync_selection_in_manifest_order(es, only, n - 1);
        let p0 = selected_positions(es, only, n - 1);
        let p = selected_positions(es, only, n);
        if only.len() == 0 || only.contains(es[n - 1].id@) {
            assert(p == p0.push((n - 1) as usize));
            assert forall|i: int, j: int| 0 <= i < j < p.len() implies #[trigger] p[i] < #[trigger] p[j] by {
                if j == p0.len() as int {
                    assert(p[i] == p0[i]);
                    assert(p0[i] < n - 1);
                } else {
                    assert(p[i] == p0[i] && p[j] == p0[j]);
                }
            }
            assert forall|i: int| 0 <= i < p.len() implies (#[trigger] p[i]) < n && (only.len() == 0
                || only.contains(es[p[i] as int].id@)) by {
                if i < p0.len() {
                    assert(p[i] == p0[i]);
                }
            }
            assert forall|k: int|
                0 <= k < n && (only.len() == 0 || only.contains(es[k].id@)) implies p.contains(k as usize) by {
                if k < n - 1 {
                    let j = choose|j: int| 0 <= j < p0.len() && p0[j] == k as usize;
                    assert(p[j] == k as usize);
                } else {
                    assert(p[p0.len() as int] == k as usize);
                }
            }
        }
    }
}

/// The entries whose ids are not listed.
pub open spec fn kept_entries(es: Seq<Entry>, ids: Seq<Seq<char>>) -> Seq<Entry>
    decreases es.len(),
{
    if es.len() == 0 {
        es
    } else {
        let rest = kept_entries(es.drop_last(), ids);
        if ids.contains(es.last().id@) {
            rest
        } else {
            rest.push(es.last())
        }
    }
}

/// The destinations of the entries whose ids are listed, in order.
pub open spec fn removed_dests(es: Seq<Entry>, ids: Seq<Seq<char>>) -> Seq<Option<String>>
    decreases es.len(),
{
    if es.len() == 0 {
        Seq::empty()
    } else {
        let rest = removed_dests(es.drop_last(), ids);
        if ids.contains(es.last().id@) {
            rest.push(es.last().dest)
        } else {
            rest
        }
    }
}

/// Whether `id` is among `ids`.
fn listed_id(ids: &Vec<String>, id: &str) -> (r: bool)
    ensures
        r == string_views(ids@).contains(id@),
{
    let mut i: usize = 0;
    while i < ids.len()
        invariant
            i <= ids@.len(),
            forall|j: int| 0 <= j < i ==> ids@[j]@ != id@,
        decreases ids@.len() - i,
    {
        if str_eq(ids[i].as_str(), id) {
            assert(string_views(ids@)[i as int] == id@);
            return true;
        }
        i = i + 1;
    }
    assert(!string_views(ids@).contains(id@)) by {
        if string_views(ids@).contains(id@) {
            let j = choose|j: int| 0 <= j < ids@.len() && string_views(ids@)[j] == id@;
            assert(ids@[j]@ == id@);
        }
    }
    false
}

/// Removes the entries with the listed ids; returns their destinations.
pub fn remove_manifest_entries(manifest: &mut Manifest, ids: &Vec<String>) -> (r: Vec<Option<String>>)
    ensures
        final(manifest).entries@ == kept_entries(old(manifest).entries@, string_views(ids@)),
        r@ == removed_dests(old(manifest).entries@, string_views(ids@)),
{
    let mut kept: Vec<Entry> = Vec::new();
    let mut dests: Vec<Option<String>> = Vec::new();
    let mut rest: Vec<Entry> = Vec::new();
    std::mem::swap(&mut rest, &mut manifest.entries);
    let ghost all = rest@;
    let n = rest.len();
    let mut i: usize = 0;
    while i < n
        invariant
            n == all.len(),
            i <= n,
            rest@ == all.skip(i as int),
            kept@ == kept_entries(all.take(i as int), string_views(ids@)),
            dests@ == removed_dests(all.take(i as int), string_views(ids@)),
        decreases n - i,
    {
        let ghost before = rest@;
        let e = rest.remove(0);
        assert(before[0] == all[i as int] && rest@ =~= all.skip(i + 1));
        assert(all.take(i + 1).drop_last() =~= all.take(i as int));
        if listed_id(ids, e.id.as_str()) {
            dests.push(e.dest);
        } else {
            kept.push(e);
        }
        i = i + 1;
    }
    assert(all.take(n as int) =~= all);
    manifest.entries = kept;
    dests
}

/// For each skill, whether the manifest already has an entry of its name.
pub fn installed_flags(skills: &Vec<DiscoveredSkill>, existing: &Vec<String>) -> (r: Vec<bool>)
    ensures
        r@.len() == skills@.len(),
        forall|i: int|
            0 <= i < skills@.len() ==> r@[i] == string_views(existing@).contains(#[trigger] skills@[i].name@),
{
    let mut r: Vec<bool> = Vec::new();
    let mut i: usize = 0;
    while i < skills.len()
        invariant
            i <= skills@.len(),
            r@.len() == i,
            forall|j: int|
                0 <= j < i ==> r@[j] == string_views(existing@).contains(#[trigger] skills@[j].name@),
        decreases skills@.len() - i,
    {
        r.push(listed_id(existing, skills[i].name.as_str()));
        i = i + 1;
    }
    r
}

/// What a discovery changes in the manifest.
#[derive(Debug)]
pub struct DiscoveryPlan {
    /// Selected skills not yet in the manifest (indices, in selection order)
    pub to_add: Vec<usize>,
    /// Ids in the manifest, in manifest order, of discovered skills left unselected
    pub to_remove: Vec<String>,
    /// Names of selected skills already in the manifest, in selection order
    pub unchanged: Vec<String>,
}

/// The names of skills.
pub open spec fn skill_names(skills: Seq<DiscoveredSkill>) -> Seq<Seq<char>> {
    skills.map_values(|s: DiscoveredSkill| s.name@)
}

/// The names of the selected skills.
pub open spec fn selected_names(skills: Seq<DiscoveredSkill>, sel: Seq<usize>) -> Seq<Seq<char>> {
    sel.map_values(|i: usize| skills[i as int].name@)
}

/// The selected indices whose skills are new.
pub open spec fn new_selected(skills: Seq<DiscoveredSkill>, sel: Seq<usize>, existing: Seq<Seq<char>>) -> Seq<
    usize,
>
    decreases sel.len(),
{
    if sel.len() == 0 {
        Seq::empty()
    } else {
        let rest = new_selected(skills, sel.drop_last(), existing);
        if existing.contains(skills[sel.last() as int].name@) {
            rest
        } else {
            rest.push(sel.last())
        }
    }
}

/// The names of selected skills that exist.
pub open spec fn kept_selected(skills: Seq<DiscoveredSkill>, sel: Seq<usize>, existing: Seq<Seq<char>>) -> Seq<
    Seq<char>,
>
    decreases sel.len(),
{
    if sel.len() == 0 {
        Seq::empty()
    } else {
        let rest = kept_selected(skills, sel.drop_last(), existing);
        if existing.contains(skills[sel.last() as int].name@) {
            rest.push(skills[sel.last() as int].name@)
        } else {
            rest
        }
    }
}

/// The existing ids of discovered skills that were not selected.
pub open spec fn deselected(existing: Seq<Seq<char>>, names: Seq<Seq<char>>, chosen: Seq<Seq<char>>) -> Seq<
    Seq<char>,
>
    decreases existing.len(),
{
    if existing.len() == 0 {
        Seq::empty()
    } else {
        let rest = deselected(existing.drop_last(), names, chosen);
        if names.contains(existing.last()) && !chosen.contains(existing.last()) {
            rest.push(existing.last())
        } else {
            rest
        }
    }
}

/// A discovery that found nothing is an error naming where it looked; any
/// skill found lets the discovery go on.
pub fn require_skills_found(skills: &Vec<DiscoveredSkill>, location: &str) -> (r: Result<(), ApsError>)
    ensures
        skills@.len() == 0 <==> r is Err,
        r matches Err(e) ==> (e matches ApsError::NoSkillsFound { location: l } && l@ == location@),
{
    if skills.len() == 0 {
        Err(ApsError::NoSkillsFound { location: lit(location) })
    } else {
        Ok(())
    }
}

/// What a discovery changes: the selected skills to add, the discovered
/// skills to remove because they were unselected, and those unchanged.
pub fn plan_discovery(
    skills: &Vec<DiscoveredSkill>,
    existing: &Vec<String>,
    selected: &Vec<usize>,
) -> (r: DiscoveryPlan)
    requires
        forall|k: int| 0 <= k < selected@.len() ==> #[trigger] selected@[k] < skills@.len(),
    ensures
        r.to_add@ == new_selected(skills@, selected@, string_views(existing@)),
        string_views(r.unchanged@) == kept_selected(skills@, selected@, string_views(existing@)),
        string_views(r.to_remove@) == deselected(
            string_views(existing@),
            skill_names(skills@),
            selected_names(skills@, selected@),
        ),
{
    let mut to_add: Vec<usize> = Vec::new();
    let mut unchanged: Vec<String> = Vec::new();
    let mut chosen: Vec<String> = Vec::new();

    let mut i: usize = 0;
    while i < selected.len()
        invariant
            i <= selected@.len(),
            forall|k: int| 0 <= k < selected@.len() ==> #[trigger] selected@[k] < skills@.len(),
            to_add@ == new_selected(skills@, selected@.take(i as int), string_views(existing@)),
            string_views(unchanged@) == kept_selected(skills@, selected@.take(i as int), string_views(existing@)),
            string_views(chosen@) == selected_names(skills@, selected@.take(i as int)),
        decreases selected@.len() - i,
    {
        let k = selected[i];
        assert(selected@.take(i + 1).drop_last() =~= selected@.take(i as int));
        assert(selected@.take(i + 1).last() == k);
        let name = &skills[k].name;
        let ghost bc = string_views(chosen@);
        chosen.push(name.clone());
        assert(string_views(chosen@) =~= bc.push(skills@[k as int].name@));
        assert(selected_names(skills@, selected@.take(i + 1)) =~= selected_names(
            skills@,
            selected@.take(i as int),
        ).push(skills@[k as int].name@));
        if listed_id(existing, name.as_str()) {
            let ghost bu = string_views(unchanged@);
            unchanged.push(name.clone());
            assert(string_views(unchanged@) =~= bu.push(skills@[k as int].name@));
        } else {
            to_add.push(k);
        }
        i = i + 1;
    }
    assert(selected@.take(selected@.len() as int) =~= selected@);
    let mut names: Vec<String> = Vec::new();
    let mut j: usize = 0;
    while j < skills.len()
        invariant
            j <= skills@.len(),
            string_views(names@) == skill_names(skills@).take(j as int),
        decreases skills@.len() - j,
    {
        let ghost bn = string_views(names@);
        names.push(skills[j].name.clone());
        assert(string_views(names@) =~= bn.push(skills@[j as int].name@));
        assert(skill_names(skills@).take(j + 1) =~= skill_names(skills@).take(j as int).push(
            skills@[j as int].name@,
        ));
        j = j + 1;
    }
    assert(skill_names(skills@).take(skills@.len() as int) =~= skill_names(skills@));
    let mut to_remove: Vec<String> = Vec::new();
    let mut e: usize = 0;
    while e < existing.len()
        invariant
            e <= existing@.len(),
            string_views(names@) == skill_names(skills@),
            string_views(chosen@) == selected_names(skills@, selected@),
            string_views(to_remove@) == deselected(
                string_views(existing@).take(e as int),
                skill_names(skills@),
                selected_names(skills@, selected@),
            ),
        decreases existing@.len() - e,
    {
        assert(string_views(existing@).take(e + 1).drop_last() =~= string_views(existing@).take(
            e as int,
        ));
        assert(string_views(existing@).take(e + 1).last() == existing@[e as int]@);
        let id = existing[e].as_str();
        if listed_id(&names, id) && !listed_id(&chosen, id) {
            let ghost br = string_views(to_remove@);
            to_remove.push(existing[e].clone());
            assert(string_views(to_remove@) =~= br.push(existing@[e as int]@));
        }
        e = e + 1;
    }
    assert(string_views(existing@).take(existing@.len() as int) =~= string_views(existing@));
    DiscoveryPlan { to_add, to_remove, unchanged }
}

/// How many of the skills to add have this name.
pub open spec fn name_count(skills: Seq<DiscoveredSkill>, to_add: Seq<usize>, name: Seq<char>) -> nat
    decreases to_add.len(),
{
    if to_add.len() == 0 {
        0
    } else {
        name_count(skills, to_add.drop_last(), name) + if skills[to_add.last() as int].name@ == name {
            1nat
        } else {
            0nat
        }
    }
}

/// `s` with every `/` replaced by `-`.
pub open spec fn dashed(s: Seq<char>) -> Seq<char> {
    s.map_values(|c: char| if c == '/' { '-' } else { c })
}

/// The id of a discovered skill being added: its name, or its path with `/`
/// replaced by `-` when several skills being added share the name.
pub open spec fn discovered_id(skills: Seq<DiscoveredSkill>, to_add: Seq<usize>, k: usize) -> Seq<char> {
    if name_count(skills, to_add, skills[k as int].name@) > 1 {
        dashed(skills[k as int].repo_path@)
    } else {
        skills[k as int].name@
    }
}

fn count_name(skills: &Vec<DiscoveredSkill>, to_add: &Vec<usize>, name: &str) -> (r: usize)
    requires
        forall|k: int| 0 <= k < to_add@.len() ==> #[trigger] to_add@[k] < skills@.len(),
    ensures
        r == name_count(skills@, to_add@, name@),
{
    let mut n: usize = 0;
    let mut i: usize = 0;
    while i < to_add.len()
        invariant
            i <= to_add@.len(),
            forall|k: int| 0 <= k < to_add@.len() ==> #[trigger] to_add@[k] < skills@.len(),
            n == name_count(skills@, to_add@.take(i as int), name@),
            n <= i,
        decreases to_add@.len() - i,
    {
        assert(to_add@.take(i + 1).drop_last() =~= to_add@.take(i as int));
        assert(to_add@.take(i + 1).last() == to_add@[i as int]);
        if str_eq(skills[to_add[i]].name.as_str(), name) {
            n = n + 1;
        }
        i = i + 1;
    }
    assert(to_add@.take(to_add@.len() as int) =~= to_add@);
    n
}

fn dash_path(s: &str) -> (r: String)
    ensures
        r@ == dashed(s@),
{
    let v = chars_of(s);
    let mut out: Vec<char> = Vec::new();
    let mut i: usize = 0;
    while i < v.len()
        invariant
            i <= v@.len(),
            out@ == dashed(v@.take(i as int)),
        decreases v@.len() - i,
    {
        let c = if v[i] == '/' {
            '-'
        } else {
            v[i]
        };
        out.push(c);
        assert(dashed(v@.take(i + 1)) =~= dashed(v@.take(i as int)).push(c));
        i = i + 1;
    }
    assert(v@.take(v@.len() as int) =~= v@);
    string_of(out.as_slice())
}

/// The manifest entries for the discovered skills being added.
pub fn discovered_entries(
    kind: AssetKind,
    skills: &Vec<DiscoveredSkill>,
    to_add: &Vec<usize>,
    origin: &SkillOrigin,
) -> (r: Vec<Entry>)
    requires
        forall|k: int| 0 <= k < to_add@.len() ==> #[trigger] to_add@[k] < skills@.len(),
    ensures
        r@.len() == to_add@.len(),
        forall|i: int|
            0 <= i < to_add@.len() ==> {
                let e = #[trigger] r@[i];
                let s = skills@[to_add@[i] as int];
                &&& e.id@ == discovered_id(skills@, to_add@, to_add@[i])
                &&& e.kind == kind
                &&& e.dest matches Some(d) && d@ == skill_dest_of(kind, e.id@)
                &&& e.sources@.len() == 0
                &&& e.include_prefixes@.len() == 0
                &&& e.source matches Some(src) && match *origin {
                    SkillOrigin::Git { repo, git_ref } => src == (Source::Git {
                        repo,
                        git_ref,
                        shallow: true,
                        path: Some(s.repo_path),
                    }),
                    SkillOrigin::Filesystem { root } => src == (Source::Filesystem {
                        root,
                        symlink: true,
                        path: Some(s.repo_path),
                    }),
                }
            },
{
    let mut r: Vec<Entry> = Vec::new();
    let mut i: usize = 0;
    while i < to_add.len()
        invariant
            i <= to_add@.len(),
            forall|k: int| 0 <= k < to_add@.len() ==> #[trigger] to_add@[k] < skills@.len(),
            r@.len() == i,
            forall|j: int|
                0 <= j < i ==> {
                    let e = #[trigger] r@[j];
                    let s = skills@[to_add@[j] as int];
                    &&& e.id@ == discovered_id(skills@, to_add@, to_add@[j])
                    &&& e.kind == kind
                    &&& e.dest matches Some(d) && d@ == skill_dest_of(kind, e.id@)
                    &&& e.sources@.len() == 0
                    &&& e.include_prefixes@.len() == 0
                    &&& e.source matches Some(src) && match *origin {
                        SkillOrigin::Git { repo, git_ref } => src == (Source::Git {
                            repo,
                            git_ref,
                            shallow: true,
                            path: Some(s.repo_path),
                        }),
                        SkillOrigin::Filesystem { root } => src == (Source::Filesystem {
                            root,
                            symlink: true,
                            path: Some(s.repo_path),
                        }),
                    }
                },
        decreases to_add@.len() - i,
    {
        let s = &skills[to_add[i]];
        let id = if count_name(skills, to_add, s.name.as_str()) > 1 {
            dash_path(s.repo_path.as_str())
        } else {
            s.name.clone()
        };
        let src = skill_source(origin, Some(s.repo_path.clone()));
        r.push(skill_entry(id, kind, src));
        i = i + 1;
    }
    r
}

/// The entries `sync` installs: all, or those listed with `--only` (in
/// manifest order); a listed id the manifest lacks is an error.
pub open spec fn only_ok(es: Seq<Entry>, only: Seq<Seq<char>>) -> bool {
    forall|k: int| 0 <= k < only.len() ==> ids_of(es).contains(#[trigger] only[k])
}

/// The entries selected by `--only`, by position.
pub open spec fn selected_positions(es: Seq<Entry>, only: Seq<Seq<char>>, n: int) -> Seq<usize>
    decreases n,
{
    if n <= 0 {
        Seq::empty()
    } else {
        let rest = selected_positions(es, only, n - 1);
        if only.len() == 0 || only.contains(es[n - 1].id@) {
            rest.push((n - 1) as usize)
        } else {
            rest
        }
    }
}

/// The positions of the entries `sync` installs, or the error for the first
/// `--only` id that no entry has.
pub fn select_sync_entries(manifest: &Manifest, only: &Vec<String>) -> (r: Result<Vec<usize>, ApsError>)
    ensures
        only_ok(manifest.entries@, string_views(only@)) ==> (r matches Ok(v) && v@
            == selected_positions(
            manifest.entries@,
            string_views(only@),
            manifest.entries@.len() as int,
        )),
        r matches Err(e) ==> exists|k: int|
            0 <= k < only@.len() && !ids_of(manifest.entries@).contains(#[trigger] only@[k]@)
                && (forall|j: int| 0 <= j < k ==> ids_of(manifest.entries@).contains(only@[j]@))
                && (e matches ApsError::EntryNotFound { id } && id@ == only@[k]@),
        r is Ok <==> only_ok(manifest.entries@, string_views(only@)),
{
    let mut k: usize = 0;
    while k < only.len()
        invariant
            k <= only@.len(),
            forall|j: int| 0 <= j < k ==> ids_of(manifest.entries@).contains(only@[j]@),
        decreases only@.len() - k,
    {
        if !has_entry(manifest, only[k].as_str()) {
            proof {
                assert(!only_ok(manifest.entries@, string_views(only@))) by {
                    assert(string_views(only@)[k as int] == only@[k as int]@);
                }
            }
            return Err(ApsError::EntryNotFound { id: only[k].clone() });
        }
        k = k + 1;
    }
    assert(only_ok(manifest.entries@, string_views(only@))) by {
        assert forall|j: int| 0 <= j < only@.len() implies ids_of(manifest.entries@).contains(
            #[trigger] string_views(only@)[j],
        ) by {
            assert(string_views(only@)[j] == only@[j]@);
        }
    }
    let mut r: Vec<usize> = Vec::new();
    let mut i: usize = 0;
    while i < manifest.entries.len()
        invariant
            i <= manifest.entries@.len(),
            r@ == selected_positions(manifest.entries@, string_views(only@), i as int),
        decreases manifest.entries@.len() - i,
    {
        if only.len() == 0 || listed_id(only, manifest.entries[i].id.as_str()) {
            r.push(i);
        }
        i = i + 1;
    }
    Ok(r)
}

/// The text a kind is listed with: its manifest name.
pub open spec fn kind_label_of(k: AssetKind) -> Seq<char> {
    match k {
        AssetKind::AgentSkill => "agent_skill"@,
        AssetKind::AgentsMd => "agents_md"@,
        AssetKind::CompositeAgentsMd => "composite_agents_md"@,
        AssetKind::CursorRules => "cursor_rules"@,
        AssetKind::CursorHooks => "cursor_hooks"@,
        AssetKind::CursorSkillsRoot => "cursor_skills_root"@,
    }
}

/// The text a kind is listed with.
pub fn format_kind_label(kind: AssetKind) -> (r: String)
    ensures
        r@ == kind_label_of(kind),
{
    match kind {
        AssetKind::AgentSkill => lit("agent_skill"),
        AssetKind::AgentsMd => lit("agents_md"),
        AssetKind::CompositeAgentsMd => lit("composite_agents_md"),
        AssetKind::CursorRules => lit("cursor_rules"),
        AssetKind::CursorHooks => lit("cursor_hooks"),
        AssetKind::CursorSkillsRoot => lit("cursor_skills_root"),
    }
}

/// A repository URL shortened for listing: without a trailing `.git` (every
/// one) and, for GitHub, without `https://github.com/`.
pub open spec fn short_repo_of(repo: Seq<char>) -> Seq<char> {
    let t = strip_all_suffix(repo, ".git"@);
    if starts_with(t, "https://github.com/"@) {
        t.skip(19)
    } else {
        repo
    }
}

/// A source in one line.
pub open spec fn source_short_of(s: Source) -> Seq<char> {
    match s {
        Source::Git { repo, git_ref, path, .. } => {
            let ref_part = if git_ref@ == "auto"@ {
                Seq::empty()
            } else {
                " @ "@ + git_ref@
            };
            match path {
                Some(p) => "git: "@ + short_repo_of(repo@) + ref_part + " → "@ + p@,
                None => "git: "@ + short_repo_of(repo@) + ref_part,
            }
        },
        Source::Filesystem { root, path, symlink } => {
            let tag = if symlink {
                " (symlink)"@
            } else {
                Seq::empty()
            };
            match path {
                Some(p) => "fs: "@ + root@ + "/"@ + p@ + tag,
                None => "fs: "@ + root@ + tag,
            }
        },
    }
}

/// A source in one line.
pub fn format_source_short(source: &Source) -> (r: String)
    ensures
        r@ == source_short_of(*source),
{
    proof {
        reveal_strlit("https://github.com/");
        reveal_strlit("");
    }
    match source {
        Source::Git { repo, git_ref, path, .. } => {
            let rv = chars_of(repo.as_str());
            let t = trim_end_matches(rv.as_slice(), chars_of(".git").as_slice());
            let gh = chars_of("https://github.com/");
            let short = if has_prefix(t.as_slice(), gh.as_slice()) {
                let s = slice_copy(t.as_slice(), 19, t.len());
                string_of(s.as_slice())
            } else {
                repo.clone()
            };
            let ref_part = if str_eq(git_ref.as_str(), "auto") {
                String::new()
            } else {
                cat2(" @ ", git_ref.as_str())
            };
            let head = cat3("git: ", short.as_str(), ref_part.as_str());
            match path {
                Some(p) => cat3(head.as_str(), " → ", p.as_str()),
                None => head,
            }
        },
        Source::Filesystem { root, path, symlink } => {
            let tag = if *symlink {
                " (symlink)"
            } else {
                ""
            };
            match path {
                Some(p) => {
                    let a = cat4("fs: ", root.as_str(), "/", p.as_str());
                    cat2(a.as_str(), tag)
                },
                None => cat3("fs: ", root.as_str(), tag),
            }
        },
    }
}

/// A destination as listed: as is when it starts with `./` or `/`, else
/// with `./` before it.
pub open spec fn list_dest_of(d: Seq<char>) -> Seq<char> {
    if starts_with(d, "./"@) || starts_with(d, "/"@) {
        d
    } else {
        "./"@ + d
    }
}

/// A destination as listed.
pub fn list_dest_display(dest: &str) -> (r: String)
    ensures
        r@ == list_dest_of(dest@),
{
    let v = chars_of(dest);
    if has_prefix(v.as_slice(), chars_of("./").as_slice()) || has_prefix(
        v.as_slice(),
        chars_of("/").as_slice(),
    ) {
        lit(dest)
    } else {
        cat2("./", dest)
    }
}

/// The branch drawn before the `i`-th of `total` items of a tree.
pub fn tree_connector(i: usize, total: usize) -> (r: &'static str)
    ensures
        r@ == if i + 1 == total {
            "└── "@
        } else {
            "├── "@
        },
{
    if total > 0 && i == total - 1 {
        "└── "
    } else {
        "├── "
    }
}

/// How many of the manifest's entries the lockfile records.
pub open spec fn synced_count_of(es: Seq<Entry>, lockfile: Lockfile) -> nat
    decreases es.len(),
{
    if es.len() == 0 {
        0
    } else {
        synced_count_of(es.drop_last(), lockfile) + if lockfile.entries.view().dom().contains(
            es.last().id@,
        ) {
            1nat
        } else {
            0nat
        }
    }
}

/// How many of the manifest's entries the lockfile records.
pub fn synced_count(manifest: &Manifest, lockfile: &Lockfile) -> (r: usize)
    ensures
        r == synced_count_of(manifest.entries@, *lockfile),
{
    let mut n: usize = 0;
    let mut i: usize = 0;
    while i < manifest.entries.len()
        invariant
            i <= manifest.entries@.len(),
            n <= i,
            n == synced_count_of(manifest.entries@.take(i as int), *lockfile),
        decreases manifest.entries@.len() - i,
    {
        assert(manifest.entries@.take(i + 1).drop_last() =~= manifest.entries@.take(i as int));
        if lockfile.entries.contains_key(manifest.entries[i].id.as_str()) {
            n = n + 1;
        }
        i = i + 1;
    }
    assert(manifest.entries@.take(manifest.entries@.len() as int) =~= manifest.entries@);
    n
}

/// The hint after adding skills without syncing.
pub fn sync_hint(added: usize) -> (r: String)
    ensures
        r@ == "Run `aps sync` to install the skill"@ + (if added > 1 {
            "s"@
        } else {
            Seq::empty()
        }) + "."@,
{
    proof {
        reveal_strlit("");
    }
    cat3("Run `aps sync` to install the skill", if added > 1 {
        "s"
    } else {
        ""
    }, ".")
}

/// Whether one of the first `n` results records an entry for `k`.
pub open spec fn recorded_by(all: Seq<InstallResult>, n: int, k: Seq<char>) -> bool {
    exists|j: int| 0 <= j < n && #[trigger] all[j].id@ == k && all[j].locked_entry is Some
}

/// The lockfile after a sync: each installed entry recorded, and, after a
/// full sync, entries no longer in the manifest dropped.
pub fn record_results(
    lockfile: &mut Lockfile,
    results: Vec<InstallResult>,
    manifest: &Manifest,
    full_sync: bool,
) -> (removed: Vec<String>)
    ensures
        forall|k: Seq<char>| #[trigger]
            final(lockfile).entries.view().dom().contains(k) ==> (!full_sync || ids_of(
                manifest.entries@,
            ).contains(k)),
        !full_sync ==> removed@.len() == 0,
        forall|i: int|
            0 <= i < results@.len() && (#[trigger] results@[i]).locked_entry is Some && (!full_sync
                || ids_of(manifest.entries@).contains(results@[i].id@)) && (forall|j: int|
                i < j < results@.len() ==> results@[j].id@ != results@[i].id@
                    || results@[j].locked_entry is None) ==> final(lockfile).entries.view().dom().contains(
                results@[i].id@,
            ) && final(lockfile).entries.view()[results@[i].id@] == results@[i].locked_entry->0,
        forall|k: Seq<char>|
            !(exists|i: int| 0 <= i < results@.len() && #[trigger] results@[i].id@ == k
                && results@[i].locked_entry is Some) && (!full_sync || ids_of(manifest.entries@).contains(k))
                ==> (#[trigger] final(lockfile).entries.view().dom().contains(k) <==> old(
                lockfile,
            ).entries.view().dom().contains(k)) && (old(lockfile).entries.view().dom().contains(k)
                ==> final(lockfile).entries.view()[k] == old(lockfile).entries.view()[k]),
        forall|k: Seq<char>| #[trigger]
            string_views(removed@).contains(k) ==> full_sync && !ids_of(manifest.entries@).contains(k),
        forall|k: Seq<char>|
            full_sync && #[trigger] old(lockfile).entries.view().dom().contains(k) && !ids_of(
                manifest.entries@,
            ).contains(k) ==> string_views(removed@).contains(k),
        forall|k: Seq<char>| #[trigger]
            string_views(removed@).contains(k) ==> old(lockfile).entries.view().dom().contains(k)
                || recorded_by(results@, results@.len() as int, k),
        string_views(removed@).no_duplicates(),
{
    let ghost start = lockfile.entries.view();
    let ghost all = results@;
    let mut rest = results;
    let n = rest.len();
    let mut i: usize = 0;
    while i < n
        invariant
            n == all.len(),
            i <= n,
            rest@ == all.skip(i as int),
            forall|k: Seq<char>|
                #![trigger lockfile.entries.view().dom().contains(k)]
                !recorded_by(all, i as int, k) ==> (lockfile.entries.view().dom().contains(k)
                    <==> start.dom().contains(k)) && (start.dom().contains(k)
                    ==> lockfile.entries.view()[k] == start[k]),
            forall|j: int|
                0 <= j < i && (#[trigger] all[j]).locked_entry is Some && (forall|l: int|
                    j < l < i ==> all[l].id@ != all[j].id@ || all[l].locked_entry is None)
                    ==> lockfile.entries.view().dom().contains(all[j].id@)
                    && lockfile.entries.view()[all[j].id@] == all[j].locked_entry->0,
            forall|k: Seq<char>| #[trigger]
                lockfile.entries.view().dom().contains(k) ==> start.dom().contains(k) || recorded_by(
                    all,
                    i as int,
                    k,
                ),
            forall|k: Seq<char>| #[trigger] start.dom().contains(k) ==> lockfile.entries.view().dom().contains(k),
        decreases n - i,
    {
        let ghost before = rest@;
        let r = rest.remove(0);
        assert(before[0] == all[i as int] && rest@ =~= all.skip(i + 1));
        let ghost gr = r;
        let ghost prev = lockfile.entries.view();
        let InstallResult { id, locked_entry, .. } = r;
        match locked_entry {
            Some(e) => {
                lockfile.upsert(id, e);
            },
            None => {},
        }
        proof {
            assert(gr == all[i as int]);
            assert forall|k: Seq<char>|
                #![trigger lockfile.entries.view().dom().contains(k)]
                !recorded_by(all, i + 1, k)
                implies (lockfile.entries.view().dom().contains(k) <==> start.dom().contains(k))
                && (start.dom().contains(k) ==> lockfile.entries.view()[k] == start[k]) by {
                assert(!recorded_by(all, i as int, k)) by {
                    if recorded_by(all, i as int, k) {
                        let j = choose|j: int| 0 <= j < i && #[trigger] all[j].id@ == k && all[j].locked_entry is Some;
                        assert(0 <= j < i + 1);
                    }
                }
                assert(prev.dom().contains(k) <==> start.dom().contains(k));
                assert(start.dom().contains(k) ==> prev[k] == start[k]);
                if gr.locked_entry is Some {
                    assert(k != gr.id@) by {
                        if k == gr.id@ {
                            assert(all[i as int].id@ == k);
                            assert(recorded_by(all, i + 1, k));
                        }
                    }
                    assert(lockfile.entries.view() == prev.insert(gr.id@, gr.locked_entry->0));
                }
            }
            assert forall|k: Seq<char>| #[trigger]
                lockfile.entries.view().dom().contains(k) implies start.dom().contains(k) || recorded_by(
                    all,
                    i + 1,
                    k,
                ) by {
                if recorded_by(all, i as int, k) {
                    let j = choose|j: int| 0 <= j < i && #[trigger] all[j].id@ == k && all[j].locked_entry is Some;
                    assert(0 <= j < i + 1 && all[j].id@ == k && all[j].locked_entry is Some);
                } else if k == gr.id@ && gr.locked_entry is Some {
                    assert(all[i as int].id@ == k);
                }
            }
        }
        i = i + 1;
    }
    if full_sync {
        let ids = entry_ids(manifest);
        let mut keep: Vec<&str> = Vec::new();
        let mut j: usize = 0;
        while j < ids.len()
            invariant
                j <= ids@.len(),
                keep@.len() == j,
                forall|l: int| 0 <= l < j ==> (#[trigger] keep@[l])@ == ids@[l]@,
            decreases ids@.len() - j,
        {
            keep.push(ids[j].as_str());
            j = j + 1;
        }
        assert(crate::lockfile::str_views(keep@) =~= string_views(ids@));
        lockfile.retain_entries(keep.as_slice())
    } else {
        Vec::new()
    }
}

/// What `validate` checks once an entry's one source is found.
#[derive(Debug, Clone, Copy, PartialEq, Eq, Structural)]
pub enum FollowUp {
    /// Each folder of a Cursor skills root holds a SKILL.md
    SkillFolders,
    /// The hooks configuration and its scripts
    Hooks,
    /// Nothing more
    Nothing,
}

/// What `validate` checks of an entry.
#[derive(Debug, Clone, Copy, PartialEq, Eq, Structural)]
pub enum ValidatePlan {
    /// Each source of a composite entry
    EachSource,
    /// Nothing to reach: the entry has no source
    NoSource,
    /// The one source, then the follow-up its kind calls for
    OneSource(FollowUp),
}

/// What `validate` checks of an entry: every source of a composite entry;
/// otherwise its source, if it has one, followed by the skill folders of a
/// Cursor skills root or the hooks of a Cursor hooks entry.
pub fn validate_plan(entry: &Entry) -> (r: ValidatePlan)
    ensures
        is_composite_entry(*entry) ==> r == ValidatePlan::EachSource,
        !is_composite_entry(*entry) && entry.source is None ==> r == ValidatePlan::NoSource,
        !is_composite_entry(*entry) && entry.source is Some ==> r == ValidatePlan::OneSource(
            if entry.kind == AssetKind::CursorSkillsRoot {
                FollowUp::SkillFolders
            } else if entry.kind == AssetKind::CursorHooks {
                FollowUp::Hooks
            } else {
                FollowUp::Nothing
            },
        ),
{
    if entry.is_composite() {
        return ValidatePlan::EachSource;
    }
    if entry.source.is_none() {
        return ValidatePlan::NoSource;
    }
    match entry.kind {
        AssetKind::CursorSkillsRoot => ValidatePlan::OneSource(FollowUp::SkillFolders),
        AssetKind::CursorHooks => ValidatePlan::OneSource(FollowUp::Hooks),
        _ => ValidatePlan::OneSource(FollowUp::Nothing),
    }
}

/// The closing lines of `validate`: all entries passed, or how many warnings
/// there were, with a hint about `--strict` when it was not given.
pub open spec fn validate_summary_lines(entries: nat, warnings: nat, strict: bool) -> Seq<Seq<char>> {
    if warnings == 0 {
        seq!["Manifest is valid. All "@ + decimal(entries) + " entries validated successfully."@]
    } else if strict {
        seq!["Manifest is valid with "@ + decimal(warnings) + " warning(s)."@]
    } else {
        seq![
            "Manifest is valid with "@ + decimal(warnings) + " warning(s)."@,
            "Run with --strict to treat warnings as errors."@,
        ]
    }
}

/// The closing lines of `validate`.
pub fn validate_summary(entries: usize, warnings: usize, strict: bool) -> (r: Vec<String>)
    ensures
        string_views(r@) == validate_summary_lines(entries as nat, warnings as nat, strict),
{
    let mut out: Vec<String> = Vec::new();
    if warnings == 0 {
        let n = decimal_text(entries);
        let count = string_of(n.as_slice());
        out.push(cat3("Manifest is valid. All ", count.as_str(), " entries validated successfully."));
    } else {
        let n = decimal_text(warnings);
        let count = string_of(n.as_slice());
        out.push(cat3("Manifest is valid with ", count.as_str(), " warning(s)."));
        if !strict {
            out.push(lit("Run with --strict to treat warnings as errors."));
        }
    }
    assert(string_views(out@) =~= validate_summary_lines(entries as nat, warnings as nat, strict));
    out
}

/// What checking one source of an entry found.
#[derive(Debug)]
pub enum SourceCheck {
    /// The source resolved to an existing path
    Found,
    /// The source resolved to a path where nothing is
    Missing(String),
    /// The source could not be resolved
    Failed(ApsError),
}

/// The warning `validate` reports for a source, if any; with `strict`, the
/// error instead. A missing path is reported with the path quoted, a failed
/// source with the error's text.
pub fn source_verdict(check: SourceCheck, strict: bool) -> (r: Result<Option<String>, ApsError>)
    ensures
        match check {
            SourceCheck::Found => r matches Ok(None),
            SourceCheck::Missing(p) => if strict {
                r matches Err(ApsError::SourcePathNotFound { path }) && path@ == p@
            } else {
                r matches Ok(Some(w)) && w@ == "Source path not found: "@ + debug_text_of(p@)
            },
            SourceCheck::Failed(e) => if strict {
                r matches Err(x) && x == e
            } else {
                r matches Ok(Some(w)) && w@ == "Source validation failed: "@ + error_text(e)
            },
        },
{
    match check {
        SourceCheck::Found => Ok(None),
        SourceCheck::Missing(p) => if strict {
            Err(ApsError::SourcePathNotFound { path: p })
        } else {
            let shown = debug_string(p.as_str());
            Ok(Some(cat2("Source path not found: ", shown.as_str())))
        },
        SourceCheck::Failed(e) => if strict {
            Err(e)
        } else {
            let text = e.message();
            Ok(Some(cat2("Source validation failed: ", text.as_str())))
        },
    }
}

/// The warning `validate` reports for an entry without a source; with
/// `strict`, the error instead.
pub fn missing_source_verdict(entry_id: &str, strict: bool) -> (r: Result<String, ApsError>)
    ensures
        strict ==> (r matches Err(ApsError::EntryRequiresSource { id }) && id@ == entry_id@),
        !strict ==> (r matches Ok(w) && w@ == "Entry '"@ + entry_id@ + "' has no source configured"@),
{
    if strict {
        Err(ApsError::EntryRequiresSource { id: lit(entry_id) })
    } else {
        Ok(cat3("Entry '", entry_id, "' has no source configured"))
    }
}

/// The skills chosen from `count` discovered ones: all of them with `--all`,
/// else those picked in the prompt, which may not be none.
pub fn select_skills(count: usize, all: bool, picked: Vec<usize>) -> (r: Result<Vec<usize>, ApsError>)
    ensures
        all ==> (r matches Ok(v) && v@ == Seq::new(count as nat, |i: int| i as usize)),
        !all && picked@.len() == 0 ==> r matches Err(ApsError::NoSkillsSelected),
        !all && picked@.len() > 0 ==> (r matches Ok(v) && v == picked),
{
    if all {
        let mut v: Vec<usize> = Vec::new();
        let mut i: usize = 0;
        while i < count
            invariant
                i <= count,
                v@ == Seq::new(i as nat, |j: int| j as usize),
            decreases count - i,
        {
            v.push(i);
            assert(v@ =~= Seq::new((i + 1) as nat, |j: int| j as usize));
            i = i + 1;
        }
        Ok(v)
    } else if picked.len() == 0 {
        Err(ApsError::NoSkillsSelected)
    } else {
        Ok(picked)
    }
}

} // verus!
