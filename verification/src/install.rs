//! Installing an entry: the decisions taken between the file operations.
use crate::catalog::{included_assets, select_assets, FoundAsset};
use crate::error::{cat2, cat3, cat4, lit, string_views, ApsError};
use crate::lockfile::{checksum_is, commit_is, LockedEntry, Lockfile};
use crate::manifest::{display_path_of, AssetKind, Entry, Source};
use crate::order::sorted_seq;
use crate::paths::{join, join_paths, parent, parent_of};
use crate::text::{chars_of, str_eq, strip_all_suffix, string_of, trim_end_matches};
use vstd::prelude::*;

verus! {

/// Options of an install run.
#[derive(Debug, Clone, Copy)]
pub struct InstallOptions {
    pub dry_run: bool,
    pub yes: bool,
    pub strict: bool,
    /// Fetch the latest versions instead of the locked ones
    pub upgrade: bool,
}

/// A newer commit than the locked one.
#[derive(Debug, Clone)]
pub struct UpgradeInfo {
    pub current_commit: String,
    pub available_commit: String,
}

/// What installing one entry did.
#[derive(Debug)]
pub struct InstallResult {
    pub id: String,
    pub installed: bool,
    pub skipped_no_change: bool,
    pub locked_entry: Option<LockedEntry>,
    pub warnings: Vec<String>,
    pub dest_path: String,
    pub was_symlink: bool,
    /// A newer commit, for git sources installed at their locked commit
    pub upgrade_available: Option<UpgradeInfo>,
}

/// A path without trailing `/` and `\` (in that order); `.` when nothing is left.
pub open spec fn normalized(p: Seq<char>) -> Seq<char> {
    let t = strip_all_suffix(strip_all_suffix(p, "/"@), "\\"@);
    if t.len() == 0 {
        "."@
    } else {
        t
    }
}

/// A path without trailing separators.
pub fn normalize_path(path: &str) -> (r: String)
    ensures
        r@ == normalized(path@),
{
    let v = chars_of(path);
    let a = trim_end_matches(v.as_slice(), chars_of("/").as_slice());
    let b = trim_end_matches(a.as_slice(), chars_of("\\").as_slice());
    if b.len() == 0 {
        lit(".")
    } else {
        string_of(b.as_slice())
    }
}

/// Whether existing content at the destination is checked before installing:
/// always for single files; for directories only when copying, since
/// symlinked files sit beside what other sources put there.
pub open spec fn checks_conflict(kind: AssetKind, use_symlink: bool) -> bool {
    match kind {
        AssetKind::AgentsMd | AssetKind::CompositeAgentsMd => true,
        _ => !use_symlink,
    }
}

/// Whether existing content at the destination is checked before installing.
pub fn should_check_conflict(kind: AssetKind, use_symlink: bool) -> (r: bool)
    ensures
        r == checks_conflict(kind, use_symlink),
{
    match kind {
        AssetKind::AgentsMd | AssetKind::CompositeAgentsMd => true,
        _ => !use_symlink,
    }
}

/// Whether a kind is a hooks directory.
pub open spec fn is_hooks_kind(kind: AssetKind) -> bool {
    kind == AssetKind::CursorHooks
}

/// The hooks configuration files next to the source and destination hooks
/// directories (`hooks.json` in their parents), for hooks kinds.
pub fn hooks_config_paths(kind: AssetKind, source_hooks_dir: &str, dest_hooks_dir: &str) -> (r:
    Result<Option<(String, String)>, ApsError>)
    ensures
        kind != AssetKind::CursorHooks ==> r matches Ok(None),
        kind == AssetKind::CursorHooks ==> match (parent(source_hooks_dir@), parent(dest_hooks_dir@)) {
            (Some(s), Some(d)) => r matches Ok(Some(p)) && p.0@ == join(s, "hooks.json"@) && p.1@
                == join(d, "hooks.json"@),
            (None, _) => r matches Err(ApsError::InvalidHooksDirectory { path }) && path@
                == source_hooks_dir@,
            (Some(_), None) => r matches Err(ApsError::InvalidHooksDirectory { path }) && path@
                == dest_hooks_dir@,
        },
{
    if kind != AssetKind::CursorHooks {
        return Ok(None);
    }
    let sp = match parent_of(source_hooks_dir) {
        Some(p) => p,
        None => {
            return Err(ApsError::InvalidHooksDirectory { path: lit(source_hooks_dir) });
        },
    };
    let dp = match parent_of(dest_hooks_dir) {
        Some(p) => p,
        None => {
            return Err(ApsError::InvalidHooksDirectory { path: lit(dest_hooks_dir) });
        },
    };
    Ok(Some((join_paths(sp.as_str(), "hooks.json"), join_paths(dp.as_str(), "hooks.json"))))
}

/// A child of a skills root: its name, whether it is a directory, and
/// whether it holds a SKILL.md.
pub type SkillChild = (String, bool, bool);

/// The skills (directories) of a skills root that lack a SKILL.md, in order.
pub open spec fn skills_missing_md(children: Seq<SkillChild>) -> Seq<Seq<char>>
    decreases children.len(),
{
    if children.len() == 0 {
        Seq::empty()
    } else {
        let rest = skills_missing_md(children.drop_last());
        if children.last().1 && !children.last().2 {
            rest.push(children.last().0@)
        } else {
            rest
        }
    }
}

/// Checks that every skill directory of a skills root holds a SKILL.md:
/// warnings naming each one that does not, or with `strict` the error for
/// the first.
pub fn validate_skills_root(children: &Vec<SkillChild>, strict: bool) -> (r: Result<
    Vec<String>,
    ApsError,
>)
    ensures
        ({
            let m = skills_missing_md(children@);
            if strict && m.len() > 0 {
                r matches Err(ApsError::MissingSkillMd { skill_name }) && skill_name@ == m[0]
            } else {
                r matches Ok(w) && string_views(w@) == m.map_values(
                    |n: Seq<char>| "Skill '"@ + n + "' is missing SKILL.md"@,
                )
            }
        }),
{
    missing_skill_warnings(children, strict, None)
}

/// The warnings of `cmd validate` for a skills root of an entry.
pub fn validate_skills_for_validate(children: &Vec<SkillChild>, entry_id: &str, strict: bool) -> (r:
    Result<Vec<String>, ApsError>)
    ensures
        ({
            let m = skills_missing_md(children@);
            if strict && m.len() > 0 {
                r matches Err(ApsError::MissingSkillMd { skill_name }) && skill_name@ == m[0]
            } else {
                r matches Ok(w) && string_views(w@) == m.map_values(
                    |n: Seq<char>|
                        "Skill '"@ + n + "' in entry '"@ + entry_id@ + "' is missing SKILL.md"@,
                )
            }
        }),
{
    missing_skill_warnings(children, strict, Some(entry_id))
}

/// The warning for a skill without SKILL.md.
pub open spec fn skill_md_warning(n: Seq<char>, entry: Option<Seq<char>>) -> Seq<char> {
    match entry {
        Some(e) => "Skill '"@ + n + "' in entry '"@ + e + "' is missing SKILL.md"@,
        None => "Skill '"@ + n + "' is missing SKILL.md"@,
    }
}

proof fn lemma_missing_md_first(children: Seq<SkillChild>, i: int)
    requires
        0 <= i < children.len(),
        skills_missing_md(children.take(i)).len() == 0,
        children[i].1 && !children[i].2,
    ensures
        skills_missing_md(children).len() > 0,
        skills_missing_md(children)[0] == children[i].0@,
    decreases children.len(),
{
    if children.len() == i + 1 {
        assert(children.drop_last() =~= children.take(i));
    } else {
        assert(children.drop_last().take(i) =~= children.take(i));
        lemma_missing_md_first(children.drop_last(), i);
    }
}

#[verifier::loop_isolation(false)]
fn missing_skill_warnings(children: &Vec<SkillChild>, strict: bool, entry_id: Option<&str>) -> (r:
    Result<Vec<String>, ApsError>)
    ensures
        ({
            let m = skills_missing_md(children@);
            let e = match entry_id {
                Some(x) => Some(x@),
                None => None,
            };
            if strict && m.len() > 0 {
                r matches Err(ApsError::MissingSkillMd { skill_name }) && skill_name@ == m[0]
            } else {
                r matches Ok(w) && string_views(w@) == m.map_values(
                    |n: Seq<char>| skill_md_warning(n, e),
                )
            }
        }),
{
    let ghost e = match entry_id {
        Some(x) => Some(x@),
        None => None,
    };
    let mut warnings: Vec<String> = Vec::new();
    let mut i: usize = 0;
    while i < children.len()
        invariant
            i <= children@.len(),
            !strict ==> string_views(warnings@) == skills_missing_md(children@.take(i as int)).map_values(
                |n: Seq<char>| skill_md_warning(n, e),
            ),
            strict ==> skills_missing_md(children@.take(i as int)).len() == 0,
            strict ==> warnings@.len() == 0,
        decreases children@.len() - i,
    {
        assert(children@.take(i + 1).drop_last() =~= children@.take(i as int));
        assert(children@.take(i + 1).last() == children@[i as int]);
        if children[i].1 && !children[i].2 {
            if strict {
                proof {
                    lemma_missing_md_first(children@, i as int);
                }
                return Err(ApsError::MissingSkillMd { skill_name: children[i].0.clone() });
            }
            let w = match entry_id {
                Some(id) => cat4("Skill '", children[i].0.as_str(), "' in entry '", id),
                None => cat3("Skill '", children[i].0.as_str(), "' is missing SKILL.md"),
            };
            let w = match entry_id {
                Some(_) => cat2(w.as_str(), "' is missing SKILL.md"),
                None => w,
            };
            let ghost before = string_views(warnings@);
            warnings.push(w);
            assert(string_views(warnings@) =~= before.push(skill_md_warning(children@[i as int].0@, e)));
            assert(skills_missing_md(children@.take(i + 1)).map_values(
                |n: Seq<char>| skill_md_warning(n, e),
            ) =~= skills_missing_md(children@.take(i as int)).map_values(
                |n: Seq<char>| skill_md_warning(n, e),
            ).push(skill_md_warning(children@[i as int].0@, e)));
        }
        i = i + 1;
    }
    assert(children@.take(children@.len() as int) =~= children@);
    Ok(warnings)
}

/// The names that start with one of the prefixes, sorted.
pub open spec fn names_as_assets(names: Seq<String>) -> Seq<FoundAsset> {
    names.map_values(|n: String| (n, None::<String>))
}

/// The entries of a source directory whose names start with one of the
/// prefixes, sorted by name.
pub fn filter_by_prefix(names: Vec<String>, prefixes: &Vec<String>) -> (r: Vec<String>)
    ensures
        string_views(r@) == sorted_seq(included_assets(names_as_assets(names@), string_views(prefixes@))).map_values(
            |a: FoundAsset| a.0@,
        ),
{
    let mut assets: Vec<FoundAsset> = Vec::new();
    let mut i: usize = 0;
    while i < names.len()
        invariant
            i <= names@.len(),
            assets@ == names_as_assets(names@).take(i as int),
        decreases names@.len() - i,
    {
        assets.push((names[i].clone(), None));
        assert(names_as_assets(names@).take(i + 1) =~= names_as_assets(names@).take(i as int).push(
            (names@[i as int], None::<String>),
        ));
        i = i + 1;
    }
    assert(names_as_assets(names@).take(names@.len() as int) =~= names_as_assets(names@));
    let selected = select_assets(assets, prefixes);
    let mut r: Vec<String> = Vec::new();
    let mut k: usize = 0;
    while k < selected.len()
        invariant
            k <= selected@.len(),
            string_views(r@) == selected@.take(k as int).map_values(|a: FoundAsset| a.0@),
        decreases selected@.len() - k,
    {
        let ghost before = string_views(r@);
        r.push(selected[k].0.clone());
        assert(string_views(r@) =~= before.push(selected@[k as int].0@));
        assert(selected@.take(k + 1).map_values(|a: FoundAsset| a.0@) =~= selected@.take(
            k as int,
        ).map_values(|a: FoundAsset| a.0@).push(selected@[k as int].0@));
        k = k + 1;
    }
    assert(selected@.take(selected@.len() as int) =~= selected@);
    r
}

/// How an asset is put in place.
#[derive(Debug, Clone, Copy, PartialEq, Eq, Structural)]
pub enum AssetPlan {
    /// Symlink the single file
    SymlinkFile,
    /// Copy the single file
    CopyFile,
    /// Symlink every file of the directory tree, creating real directories
    SymlinkTree,
    /// Symlink each selected item of the directory
    SymlinkSelected,
    /// Replace the destination directory with a copy
    CopyTree,
    /// Copy into the destination directory, keeping what else is there
    MergeTree,
    /// Copy each selected item into a fresh destination directory
    CopySelected,
    /// Copy each selected item, merging directories, keeping what else is there
    MergeSelected,
}

/// How an asset of a kind is put in place, given whether it is symlinked and
/// whether an include filter selects items.
pub open spec fn plan_of(kind: AssetKind, use_symlink: bool, selective: bool) -> Option<AssetPlan> {
    match kind {
        AssetKind::AgentsMd => Some(if use_symlink { AssetPlan::SymlinkFile } else { AssetPlan::CopyFile }),
        AssetKind::CompositeAgentsMd => None,
        _ => Some(
            if use_symlink {
                if selective {
                    AssetPlan::SymlinkSelected
                } else {
                    AssetPlan::SymlinkTree
                }
            } else if is_hooks_kind(kind) {
                if selective {
                    AssetPlan::MergeSelected
                } else {
                    AssetPlan::MergeTree
                }
            } else if selective {
                AssetPlan::CopySelected
            } else {
                AssetPlan::CopyTree
            },
        ),
    }
}

/// How an asset is put in place; composite entries are installed by
/// composing their sources instead.
pub fn asset_install_plan(kind: AssetKind, use_symlink: bool, selective: bool) -> (r: Result<
    AssetPlan,
    ApsError,
>)
    ensures
        match plan_of(kind, use_symlink, selective) {
            Some(p) => r == Ok::<AssetPlan, ApsError>(p),
            None => r matches Err(ApsError::ComposeError { message }) && message@
                == "Composite entries should use install_composite_entry"@,
        },
{
    match kind {
        AssetKind::AgentsMd => Ok(
            if use_symlink {
                AssetPlan::SymlinkFile
            } else {
                AssetPlan::CopyFile
            },
        ),
        AssetKind::CompositeAgentsMd => Err(
            ApsError::ComposeError {
                message: lit("Composite entries should use install_composite_entry"),
            },
        ),
        _ => Ok(
            if use_symlink {
                if selective {
                    AssetPlan::SymlinkSelected
                } else {
                    AssetPlan::SymlinkTree
                }
            } else if kind == AssetKind::CursorHooks {
                if selective {
                    AssetPlan::MergeSelected
                } else {
                    AssetPlan::MergeTree
                }
            } else if selective {
                AssetPlan::CopySelected
            } else {
                AssetPlan::CopyTree
            },
        ),
    }
}

/// What stands at a destination path.
#[derive(Debug, Clone, Copy)]
pub struct DestState {
    pub exists: bool,
    pub is_symlink: bool,
    pub is_file: bool,
    pub is_dir: bool,
}

/// What to remove at a destination before merging a source item into it.
#[derive(Debug, Clone, Copy, PartialEq, Eq, Structural)]
pub enum MergeStep {
    /// Nothing to remove
    Keep,
    /// Remove the file or symlink there
    RemoveFile,
    /// Remove the directory tree there
    RemoveTree,
}

/// What to remove before merging: a directory replaces a symlink or a file
/// there; a file replaces a symlink or a directory there.
pub open spec fn merge_step_of(source_is_dir: bool, d: DestState) -> MergeStep {
    if !d.exists {
        MergeStep::Keep
    } else if source_is_dir {
        if d.is_symlink || d.is_file {
            if d.is_dir {
                MergeStep::RemoveTree
            } else {
                MergeStep::RemoveFile
            }
        } else {
            MergeStep::Keep
        }
    } else if d.is_symlink {
        MergeStep::RemoveFile
    } else if d.is_dir {
        MergeStep::RemoveTree
    } else {
        MergeStep::Keep
    }
}

/// What to remove at a destination before merging a source item into it.
pub fn merge_step(source_is_dir: bool, dest: DestState) -> (r: MergeStep)
    ensures
        r == merge_step_of(source_is_dir, dest),
{
    if !dest.exists {
        MergeStep::Keep
    } else if source_is_dir {
        if dest.is_symlink || dest.is_file {
            if dest.is_dir {
                MergeStep::RemoveTree
            } else {
                MergeStep::RemoveFile
            }
        } else {
            MergeStep::Keep
        }
    } else if dest.is_symlink {
        MergeStep::RemoveFile
    } else if dest.is_dir {
        MergeStep::RemoveTree
    } else {
        MergeStep::Keep
    }
}

/// Whether an existing destination item conflicts with a hooks source item:
/// a real file where a directory goes, or a real file or directory where a
/// file goes; symlinks never conflict.
pub open spec fn hook_conflict_of(source_is_dir: bool, d: DestState) -> bool {
    d.exists && !d.is_symlink && if source_is_dir {
        d.is_file
    } else {
        d.is_file || d.is_dir
    }
}

/// Whether an existing destination item conflicts with a hooks source item.
pub fn is_hook_conflict(source_is_dir: bool, dest: DestState) -> (r: bool)
    ensures
        r == hook_conflict_of(source_is_dir, dest),
{
    dest.exists && !dest.is_symlink && if source_is_dir {
        dest.is_file
    } else {
        dest.is_file || dest.is_dir
    }
}

/// Whether a file name has the `sh` extension (`Path::extension`).
pub open spec fn is_shell_script_name(name: Seq<char>) -> bool {
    name.len() > 3 && name.subrange(name.len() - 3, name.len() as int) == ".sh"@
}

/// Whether a file is a shell script to make executable.
pub fn is_shell_script(name: &str) -> (b: bool)
    ensures
        b == is_shell_script_name(name@),
{
    let v = chars_of(name);
    let n = v.len();
    proof {
        reveal_strlit(".sh");
    }
    if n > 3 && v[n - 3] == '.' && v[n - 2] == 's' && v[n - 1] == 'h' {
        assert(v@.subrange(n - 3, n as int) =~= ".sh"@);
        true
    } else {
        proof {
            if n > 3 && v@.subrange(n - 3, n as int) == ".sh"@ {
                assert(v@.subrange(n - 3, n as int)[0] == '.');
                assert(v@.subrange(n - 3, n as int)[1] == 's');
                assert(v@.subrange(n - 3, n as int)[2] == 'h');
            }
        }
        false
    }
}

/// A file mode with the owner, group and other execute bits set; every other
/// bit is kept.
pub fn executable_mode(mode: u32) -> (r: u32)
    ensures
        r == mode | 0o111u32,
{
    mode | 0o111u32
}

/// What to do about existing content at a destination.
#[derive(Debug, Clone, Copy, PartialEq, Eq, Structural)]
pub enum ConflictAction {
    /// Back up and overwrite
    Overwrite,
    /// Dry run: report and skip
    Report,
    /// Ask the user
    Ask,
    /// Refuse: not interactive and `--yes` not given
    RequireYes,
}

/// What to do about a conflict: report it in a dry run; overwrite with
/// `--yes`; ask on a terminal; otherwise refuse.
pub fn conflict_action(options: &InstallOptions, interactive: bool) -> (r: ConflictAction)
    ensures
        r == if options.dry_run {
            ConflictAction::Report
        } else if options.yes {
            ConflictAction::Overwrite
        } else if interactive {
            ConflictAction::Ask
        } else {
            ConflictAction::RequireYes
        },
{
    if options.dry_run {
        ConflictAction::Report
    } else if options.yes {
        ConflictAction::Overwrite
    } else if interactive {
        ConflictAction::Ask
    } else {
        ConflictAction::RequireYes
    }
}

/// The commit and ref a git entry is installed at when its lock is respected:
/// the locked commit and resolved ref (`unknown` when none was recorded),
/// unless upgrading or nothing is locked.
pub fn locked_commit_plan(options: &InstallOptions, locked: Option<&LockedEntry>) -> (r: Option<
    (String, String),
>)
    ensures
        match locked {
            Some(e) => match e.commit {
                Some(c) => if options.upgrade {
                    r is None
                } else {
                    r matches Some(p) && p.0@ == c@ && p.1@ == match e.resolved_ref {
                        Some(x) => x@,
                        None => "unknown"@,
                    }
                },
                None => r is None,
            },
            None => r is None,
        },
{
    if options.upgrade {
        return None;
    }
    match locked {
        Some(e) => match &e.commit {
            Some(c) => {
                let rref = match &e.resolved_ref {
                    Some(x) => x.clone(),
                    None => lit("unknown"),
                };
                Some((c.clone(), rref))
            },
            None => None,
        },
        None => None,
    }
}

/// The upgrade on offer when the remote branch points elsewhere than the
/// locked commit.
pub fn upgrade_available(locked_commit: &str, remote_sha: Option<&str>) -> (r: Option<UpgradeInfo>)
    ensures
        match remote_sha {
            Some(s) => if s@ != locked_commit@ {
                r matches Some(u) && u.current_commit@ == locked_commit@ && u.available_commit@
                    == s@
            } else {
                r is None
            },
            None => r is None,
        },
{
    match remote_sha {
        Some(s) => if !str_eq(s, locked_commit) {
            Some(UpgradeInfo { current_commit: lit(locked_commit), available_commit: lit(s) })
        } else {
            None
        },
        None => None,
    }
}

/// Whether an entry's destination still holds what the lockfile records:
/// for a symlinked entry, a symlink to the current source; otherwise that
/// something exists there. Without a locked entry it does not.
pub fn destination_intact(
    lockfile: &Lockfile,
    id: &str,
    dest_exists: bool,
    symlink_points_to_source: bool,
) -> (r: bool)
    ensures
        r == (lockfile.entries.view().dom().contains(id@) && if lockfile.entries.view()[id@].is_symlink {
            symlink_points_to_source
        } else {
            dest_exists
        }),
{
    match lockfile.entries.get(id) {
        Some(e) => if e.is_symlink {
            symlink_points_to_source
        } else {
            dest_exists
        },
        None => false,
    }
}

/// Whether the locked entry of `id` is a symlink (false without one).
pub fn locked_is_symlink(lockfile: &Lockfile, id: &str) -> (r: bool)
    ensures
        r == (lockfile.entries.view().dom().contains(id@) && lockfile.entries.view()[id@].is_symlink),
{
    match lockfile.entries.get(id) {
        Some(e) => e.is_symlink,
        None => false,
    }
}

impl InstallResult {
    /// The result of an entry found up to date: nothing installed.
    pub fn up_to_date(
        id: &str,
        dest_path: String,
        was_symlink: bool,
        upgrade_available: Option<UpgradeInfo>,
    ) -> (r: InstallResult)
        ensures
            r.id@ == id@,
            !r.installed,
            r.skipped_no_change,
            r.locked_entry is None,
            r.warnings@.len() == 0,
            r.dest_path == dest_path,
            r.was_symlink == was_symlink,
            r.upgrade_available == upgrade_available,
    {
        InstallResult {
            id: lit(id),
            installed: false,
            skipped_no_change: true,
            locked_entry: None,
            warnings: Vec::new(),
            dest_path,
            was_symlink,
            upgrade_available,
        }
    }

    /// The result of an entry installed (or, in a dry run, that would be).
    pub fn done(
        id: &str,
        options: &InstallOptions,
        locked_entry: LockedEntry,
        warnings: Vec<String>,
        dest_path: String,
        was_symlink: bool,
    ) -> (r: InstallResult)
        ensures
            r.id@ == id@,
            r.installed == !options.dry_run,
            !r.skipped_no_change,
            r.locked_entry == Some(locked_entry),
            r.warnings == warnings,
            r.dest_path == dest_path,
            r.was_symlink == was_symlink,
            r.upgrade_available is None,
    {
        InstallResult {
            id: lit(id),
            installed: !options.dry_run,
            skipped_no_change: false,
            locked_entry: Some(locked_entry),
            warnings,
            dest_path,
            was_symlink,
            upgrade_available: None,
        }
    }
}

/// How existing content at a destination is checked before installing.
#[derive(Debug, Clone, Copy, PartialEq, Eq, Structural)]
pub enum ConflictCheck {
    /// Not at all: symlinked directory content sits beside what is there
    Skip,
    /// The destination as a whole
    Whole,
    /// Each hooks item (and the hooks configuration) that would replace a real file
    HookItems,
}

/// The steps of installing an entry once its source is known to have changed.
#[derive(Debug, Clone, Copy)]
pub struct InstallSteps {
    /// How conflicts are checked
    pub conflicts: ConflictCheck,
    /// Whether the skills of a skills root are checked for SKILL.md
    pub validate_skills: bool,
    /// Whether the hooks configuration and scripts are checked
    pub validate_hooks: bool,
    /// Whether anything is written (not in a dry run)
    pub write: bool,
    /// Whether the hooks configuration is put next to the installed hooks
    pub sync_hooks_config: bool,
    /// Whether copied shell scripts are made executable
    pub make_executable: bool,
}

/// The steps of installing an entry of `kind`: conflicts are checked for
/// single files and copied directories (hooks item by item); skills roots
/// and hooks are validated; in a real run the asset is written, and for
/// hooks the configuration follows, with copied scripts made executable.
pub fn install_steps(kind: AssetKind, use_symlink: bool, dry_run: bool) -> (r: InstallSteps)
    ensures
        r.conflicts == if !checks_conflict(kind, use_symlink) {
            ConflictCheck::Skip
        } else if is_hooks_kind(kind) {
            ConflictCheck::HookItems
        } else {
            ConflictCheck::Whole
        },
        r.validate_skills == (kind == AssetKind::CursorSkillsRoot),
        r.validate_hooks == is_hooks_kind(kind),
        r.write == !dry_run,
        r.sync_hooks_config == (!dry_run && is_hooks_kind(kind)),
        r.make_executable == (!dry_run && is_hooks_kind(kind) && !use_symlink),
{
    let hooks = match kind {
        AssetKind::CursorHooks => true,
        _ => false,
    };
    let conflicts = if !should_check_conflict(kind, use_symlink) {
        ConflictCheck::Skip
    } else if hooks {
        ConflictCheck::HookItems
    } else {
        ConflictCheck::Whole
    };
    InstallSteps {
        conflicts,
        validate_skills: match kind {
            AssetKind::CursorSkillsRoot => true,
            _ => false,
        },
        validate_hooks: hooks,
        write: !dry_run,
        sync_hooks_config: !dry_run && hooks,
        make_executable: !dry_run && hooks && !use_symlink,
    }
}

/// Whether a result reports the entry `id` found up to date at `dest_path`,
/// with nothing installed.
pub open spec fn is_up_to_date(r: InstallResult, id: Seq<char>, dest_path: Seq<char>, was_symlink: bool) -> bool {
    &&& r.id@ == id
    &&& !r.installed
    &&& r.skipped_no_change
    &&& r.locked_entry is None
    &&& r.warnings@.len() == 0
    &&& r.dest_path@ == dest_path
    &&& r.was_symlink == was_symlink
}

/// The upgrade offered against a locked commit, given the head of the branch
/// on the remote: that head, when it differs from the locked commit.
pub open spec fn offers_upgrade(
    u: Option<UpgradeInfo>,
    locked_commit: Seq<char>,
    remote: Option<Seq<char>>,
) -> bool {
    match remote {
        Some(s) => if s != locked_commit {
            u matches Some(x) && x.current_commit@ == locked_commit && x.available_commit@ == s
        } else {
            u is None
        },
        None => u is None,
    }
}

/// Whether the lock of `id` is respected: a commit is recorded for it and no
/// upgrade was asked for.
pub open spec fn lock_respected(m: Map<Seq<char>, LockedEntry>, id: Seq<char>, upgrade: bool) -> bool {
    !upgrade && m.dom().contains(id) && m[id].commit is Some
}

/// The entry's source; an entry without one cannot be installed on its own.
pub fn require_source(entry: &Entry) -> (r: Result<&Source, ApsError>)
    ensures
        match entry.source {
            Some(s) => r matches Ok(x) && *x == s,
            None => r matches Err(ApsError::EntryRequiresSource { id }) && id@ == entry.id@,
        },
{
    match &entry.source {
        Some(s) => Ok(s),
        None => Err(ApsError::EntryRequiresSource { id: entry.id.clone() }),
    }
}

/// Whether a git entry asks the remote for the head of its branch before
/// cloning: always when its lock is respected (to report an upgrade),
/// otherwise only when its destination exists (to skip an unchanged entry).
pub fn needs_remote_check(
    lockfile: &Lockfile,
    id: &str,
    options: &InstallOptions,
    dest_exists: bool,
) -> (r: bool)
    ensures
        r == (lock_respected(lockfile.entries.view(), id@, options.upgrade) || dest_exists),
{
    let plan = locked_commit_plan(options, lockfile.entries.get(id));
    plan.is_some() || dest_exists
}

/// The result of a git entry decided before any clone, from the head of its
/// branch on the remote (`None` when the remote named none or was not asked).
/// With its lock respected, an existing destination is up to date and offers
/// the remote head when it differs from the locked commit; otherwise an
/// existing destination whose recorded commit is the remote head is up to
/// date. `None`: the entry is cloned.
pub fn git_early_result(
    lockfile: &Lockfile,
    id: &str,
    options: &InstallOptions,
    dest_path: &str,
    dest_exists: bool,
    remote_sha: Option<&str>,
) -> (r: Option<InstallResult>)
    ensures
        ({
            let m = lockfile.entries.view();
            if lock_respected(m, id@, options.upgrade) {
                if dest_exists {
                    r matches Some(res) && is_up_to_date(res, id@, dest_path@, m[id@].is_symlink)
                        && offers_upgrade(
                        res.upgrade_available,
                        m[id@].commit->0@,
                        crate::text::opt_str_view(remote_sha),
                    )
                } else {
                    r is None
                }
            } else if dest_exists && (remote_sha matches Some(s) && commit_is(m, id@, s@)) {
                r matches Some(res) && is_up_to_date(res, id@, dest_path@, m[id@].is_symlink)
                    && res.upgrade_available is None
            } else {
                r is None
            }
        }),
{
    let plan = locked_commit_plan(options, lockfile.entries.get(id));
    match plan {
        Some((commit, _resolved_ref)) => {
            if dest_exists {
                let up = upgrade_available(commit.as_str(), remote_sha);
                Some(
                    InstallResult::up_to_date(
                        id,
                        lit(dest_path),
                        locked_is_symlink(lockfile, id),
                        up,
                    ),
                )
            } else {
                None
            }
        },
        None => {
            if !dest_exists {
                return None;
            }
            match remote_sha {
                Some(s) => if lockfile.commit_matches(id, s) {
                    Some(
                        InstallResult::up_to_date(
                            id,
                            lit(dest_path),
                            locked_is_symlink(lockfile, id),
                            None,
                        ),
                    )
                } else {
                    None
                },
                None => None,
            }
        },
    }
}

/// The result of an entry whose content is unchanged: when the lockfile
/// records this checksum for it and its destination is intact (a symlink to
/// the current source for a symlinked entry, otherwise something there), it
/// is up to date. `None`: it is installed.
pub fn checksum_early_result(
    lockfile: &Lockfile,
    id: &str,
    checksum: &str,
    dest_path: &str,
    dest_exists: bool,
    symlink_points_to_source: bool,
) -> (r: Option<InstallResult>)
    ensures
        ({
            let m = lockfile.entries.view();
            if checksum_is(m, id@, checksum@) && (if m[id@].is_symlink {
                symlink_points_to_source
            } else {
                dest_exists
            }) {
                r matches Some(res) && is_up_to_date(res, id@, dest_path@, m[id@].is_symlink)
                    && res.upgrade_available is None
            } else {
                r is None
            }
        }),
{
    if lockfile.checksum_matches(id, checksum) && destination_intact(
        lockfile,
        id,
        dest_exists,
        symlink_points_to_source,
    ) {
        Some(InstallResult::up_to_date(id, lit(dest_path), locked_is_symlink(lockfile, id), None))
    } else {
        None
    }
}

/// Syncing is idempotent: once an entry's install is recorded, a later sync
/// of the same content finds it up to date as long as its destination is
/// intact (for a symlinked install, a symlink to the same source).
pub proof fn law_recorded_entry_is_current(
    m: Map<Seq<char>, LockedEntry>,
    id: Seq<char>,
    e: LockedEntry,
    dest_exists: bool,
    symlink_points_to_source: bool,
)
    requires
        if e.is_symlink {
            symlink_points_to_source
        } else {
            dest_exists
        },
    ensures
        ({
            let after = m.insert(id, e);
            checksum_is(after, id, e.checksum@) && (if after[id].is_symlink {
                symlink_points_to_source
            } else {
                dest_exists
            })
        }),
{
}

/// The result of a composed entry whose composed text is unchanged: up to
/// date when the lockfile records this checksum and the file exists.
/// `None`: it is written.
pub fn composite_early_result(
    lockfile: &Lockfile,
    id: &str,
    checksum: &str,
    dest_path: &str,
    dest_exists: bool,
) -> (r: Option<InstallResult>)
    ensures
        if checksum_is(lockfile.entries.view(), id@, checksum@) && dest_exists {
            r matches Some(res) && is_up_to_date(res, id@, dest_path@, false)
                && res.upgrade_available is None
        } else {
            r is None
        },
{
    if lockfile.checksum_matches(id, checksum) && dest_exists {
        Some(InstallResult::up_to_date(id, lit(dest_path), false, None))
    } else {
        None
    }
}

/// The display paths of sources.
pub open spec fn display_paths(s: Seq<Source>) -> Seq<Seq<char>> {
    s.map_values(|x: Source| display_path_of(x))
}

/// The lockfile record of a composed entry: its sources as written (shell
/// variables kept), the destination and the checksum of the composed text.
pub fn composite_locked_entry(entry: &Entry, dest: &str, checksum: String) -> (r: LockedEntry)
    ensures
        r.source matches crate::lockfile::LockedSource::Composite(v) && string_views(v@)
            == display_paths(entry.sources@),
        r.dest@ == dest@,
        r.checksum == checksum,
        r.commit is None,
        !r.is_symlink,
{
    let mut paths: Vec<String> = Vec::new();
    let mut i: usize = 0;
    while i < entry.sources.len()
        invariant
            i <= entry.sources@.len(),
            string_views(paths@) == display_paths(entry.sources@).take(i as int),
        decreases entry.sources@.len() - i,
    {
        let ghost before = string_views(paths@);
        let p = entry.sources[i].display_path();
        paths.push(p);
        assert(string_views(paths@) =~= before.push(display_path_of(entry.sources@[i as int])));
        assert(display_paths(entry.sources@).take(i + 1) =~= display_paths(entry.sources@).take(
            i as int,
        ).push(display_path_of(entry.sources@[i as int])));
        i = i + 1;
    }
    assert(display_paths(entry.sources@).take(entry.sources@.len() as int) =~= display_paths(
        entry.sources@,
    ));
    LockedEntry::new_composite(paths, dest, checksum)
}

} // verus!
