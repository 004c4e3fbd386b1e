//! Skill discovery: directories that hold a SKILL.md file.
use crate::catalog::{
    extract_frontmatter_field, first_paragraph, first_paragraph_of, frontmatter_field,
    strip_frontmatter, truncate_description, truncated, without_frontmatter,
};
use crate::error::{cat3, lit, ApsError};
use crate::order::{lemma_sorted_seen, lemma_sorted_v, lex_le, seen, sort_by_key, sorted_seq, sorted_v};
use crate::paths::{file_name, file_name_of, join, join_paths, parent, parent_of, strip_path_prefix, stripped};
use crate::text::{opt_str_view, opt_view, str_eq};
use vstd::prelude::*;

verus! {

/// A skill found in a repository or directory.
#[derive(Debug, Clone)]
pub struct DiscoveredSkill {
    /// Name of the directory holding SKILL.md
    pub name: String,
    /// Path of that directory relative to the repository root
    pub repo_path: String,
    /// Description read from SKILL.md
    pub description: Option<String>,
}

/// The content of a discovered skill.
pub struct DiscoveredSkillView {
    pub name: Seq<char>,
    pub repo_path: Seq<char>,
    pub description: Option<Seq<char>>,
}

impl View for DiscoveredSkill {
    type V = DiscoveredSkillView;

    open spec fn view(&self) -> DiscoveredSkillView {
        DiscoveredSkillView {
            name: self.name@,
            repo_path: self.repo_path@,
            description: opt_view(self.description),
        }
    }
}

/// The description of a skill: its frontmatter `description`, else the first
/// paragraph after the frontmatter (a code fence ends the search), each cut to
/// 120 characters.
pub open spec fn skill_description(c: Seq<char>) -> Option<Seq<char>> {
    match frontmatter_field(c, "description"@) {
        Some(d) => Some(truncated(d, 120)),
        None => {
            let p = first_paragraph(without_frontmatter(c), false);
            if p.len() == 0 {
                None
            } else {
                Some(truncated(p, 120))
            }
        },
    }
}

/// The description of a skill from the content of its SKILL.md, if it could be read.
pub fn extract_skill_description(content: Option<&str>) -> (r: Option<String>)
    ensures
        opt_view(r) == match content {
            Some(c) => skill_description(c@),
            None => None,
        },
{
    let c = match content {
        Some(c) => c,
        None => {
            return None;
        },
    };
    if let Some(d) = extract_frontmatter_field(c, "description") {
        return Some(truncate_description(d.as_str(), 120));
    }
    let text = strip_frontmatter(c);
    let p = first_paragraph_of(text.as_str(), false);
    if p.as_str().is_empty() {
        None
    } else {
        Some(truncate_description(p.as_str(), 120))
    }
}

/// Whether a file name marks a skill.
pub open spec fn is_skill_file_name(n: Seq<char>) -> bool {
    n == "SKILL.md"@ || n == "skill.md"@
}

/// Whether a file name marks a skill (`SKILL.md` or `skill.md`).
pub fn is_skill_md_name(name: &str) -> (b: bool)
    ensures
        b == is_skill_file_name(name@),
{
    str_eq(name, "SKILL.md") || str_eq(name, "skill.md")
}

/// The directory of a SKILL.md file.
pub open spec fn skill_dir(p: Seq<char>) -> Seq<char> {
    match parent(p) {
        Some(d) => d,
        None => p,
    }
}

/// The skill a file denotes, keyed by its path relative to the repository
/// root, if it is a SKILL.md below the root.
pub open spec fn skill_of(
    p: Seq<char>,
    content: Option<Seq<char>>,
    root: Seq<char>,
) -> Option<(Seq<char>, DiscoveredSkillView)> {
    let dir = skill_dir(p);
    let rel = match stripped(dir, root) {
        Some(x) => x,
        None => Seq::empty(),
    };
    if file_name(p) matches Some(n) && is_skill_file_name(n) && rel.len() > 0 {
        Some(
            (
                rel,
                DiscoveredSkillView {
                    name: match file_name(dir) {
                        Some(n) => n,
                        None => "unnamed"@,
                    },
                    repo_path: rel,
                    description: match content {
                        Some(c) => skill_description(c),
                        None => None,
                    },
                },
            ),
        )
    } else {
        None
    }
}

/// The skills the files denote, in file order.
pub open spec fn skills_found(files: Seq<(String, Option<String>)>, root: Seq<char>) -> Seq<
    (Seq<char>, DiscoveredSkillView),
>
    decreases files.len(),
{
    if files.len() == 0 {
        Seq::empty()
    } else {
        let rest = skills_found(files.drop_first(), root);
        match skill_of(files[0].0@, opt_view(files[0].1), root) {
            Some(s) => seq![s] + rest,
            None => rest,
        }
    }
}

/// The name and the path relative to the root of the skill a file denotes, if any.
fn skill_place(p: &str, repo_root: &str) -> (r: Option<(String, String)>)
    ensures
        match skill_of(p@, None, repo_root@) {
            Some(s) => r matches Some(x) && x.0@ == s.1.name && x.1@ == s.0,
            None => r is None,
        },
{
    let fname = match file_name_of(p) {
        Some(n) => n,
        None => {
            return None;
        },
    };
    if !is_skill_md_name(fname.as_str()) {
        return None;
    }
    let dir = match parent_of(p) {
        Some(d) => d,
        None => lit(p),
    };
    let rel = match strip_path_prefix(dir.as_str(), repo_root) {
        Some(x) => x,
        None => String::new(),
    };
    if rel.as_str().is_empty() {
        return None;
    }
    let name = match file_name_of(dir.as_str()) {
        Some(n) => n,
        None => lit("unnamed"),
    };
    proof {
        reveal_strlit("unnamed");
    }
    Some((name, rel))
}

/// The skill a file denotes, if any.
fn skill_from_file(p: &str, content: Option<&str>, repo_root: &str) -> (r: Option<DiscoveredSkill>)
    ensures
        match skill_of(p@, opt_str_view(content), repo_root@) {
            Some(s) => r matches Some(k) && k@ == s.1,
            None => r is None,
        },
{
    match skill_place(p, repo_root) {
        Some((name, rel)) => {
            let description = extract_skill_description(content);
            Some(DiscoveredSkill { name, repo_path: rel, description })
        },
        None => None,
    }
}

/// The skills among the files (`(path, content of the file if it is a SKILL.md
/// and could be read)`), sorted by their path relative to `repo_root`. A
/// SKILL.md at the root itself is not a skill.
pub fn find_skills_in_directory(files: Vec<(String, Option<String>)>, repo_root: &str) -> (r: Vec<
    DiscoveredSkill,
>)
    ensures
        r@.map_values(|k: DiscoveredSkill| k@) == sorted_v(skills_found(files@, repo_root@)).map_values(
            |p: (Seq<char>, DiscoveredSkillView)| p.1,
        ),
{
    let mut keyed: Vec<(String, DiscoveredSkill)> = Vec::new();
    let mut i: usize = 0;
        assert(files@.skip(0) =~= files@);
    while i < files.len()
        invariant
            i <= files@.len(),
            seen(keyed@) + skills_found(files@.skip(i as int), repo_root@) == skills_found(
                files@,
                repo_root@,
            ),
        decreases files@.len() - i,
    {
        let ghost cur = files@.skip(i as int);
        assert(cur[0] == files@[i as int]);
        assert(cur.drop_first() =~= files@.skip(i + 1));
        let content: Option<&str> = match &files[i].1 {
            Some(c) => Some(c.as_str()),
            None => None,
        };
        assert(opt_str_view(content) == opt_view(files@[i as int].1));
        let found = skill_from_file(files[i].0.as_str(), content, repo_root);
        match found {
            Some(k) => {
                let ghost old_seen = seen(keyed@);
                let key = k.repo_path.clone();
                let ghost gk = k;
                keyed.push((key, k));
                assert(seen(keyed@) =~= old_seen.push((gk.repo_path@, gk@)));
                assert(seen(keyed@) + skills_found(files@.skip(i + 1), repo_root@) =~= old_seen
                    + skills_found(cur, repo_root@));
            },
            None => {},
        }
        i = i + 1;
    }
    assert(files@.skip(i as int) =~= Seq::<(String, Option<String>)>::empty());
    assert(seen(keyed@) =~= skills_found(files@, repo_root@));
    let sorted = sort_by_key(keyed);
    proof {
        lemma_sorted_seen(keyed@);
    }
    let mut r: Vec<DiscoveredSkill> = Vec::new();
    let mut src = sorted;
    let ghost all = src@;
    while src.len() > 0
        invariant
            r@.map_values(|k: DiscoveredSkill| k@) + seen(src@).map_values(
                |p: (Seq<char>, DiscoveredSkillView)| p.1,
            ) == seen(all).map_values(|p: (Seq<char>, DiscoveredSkillView)| p.1),
        decreases src@.len(),
    {
        let ghost before = src@;
        let ghost old_r = r@.map_values(|k: DiscoveredSkill| k@);
        let (_key, k) = src.remove(0);
        let ghost gk = k;
        r.push(k);
        assert(r@.map_values(|k: DiscoveredSkill| k@) =~= old_r.push(gk@));
        assert(seen(before).map_values(|p: (Seq<char>, DiscoveredSkillView)| p.1) =~= seq![gk@]
            + seen(src@).map_values(|p: (Seq<char>, DiscoveredSkillView)| p.1));
    }
    assert(seen(src@).map_values(|p: (Seq<char>, DiscoveredSkillView)| p.1) =~= Seq::<
        DiscoveredSkillView,
    >::empty());
    r
}

/// Every skill is keyed by its path in the repository, which is not empty.
pub open spec fn keyed_by_path(s: Seq<(Seq<char>, DiscoveredSkillView)>) -> bool {
    forall|i: int| 0 <= i < s.len() ==> (#[trigger] s[i]).0 == s[i].1.repo_path && s[i].0.len() > 0
}

proof fn lemma_found_keyed_by_path(files: Seq<(String, Option<String>)>, root: Seq<char>)
    ensures
        keyed_by_path(skills_found(files, root)),
    decreases files.len(),
{
    if files.len() > 0 {
        lemma_found_keyed_by_path(files.drop_first(), root);
        let rest = skills_found(files.drop_first(), root);
        match skill_of(files[0].0@, opt_view(files[0].1), root) {
            Some(k) => {
                assert forall|i: int| 0 <= i < (seq![k] + rest).len() implies (#[trigger] (seq![k]
                    + rest)[i]).0 == (seq![k] + rest)[i].1.repo_path && (seq![k] + rest)[i].0.len()
                    > 0 by {
                    if i > 0 {
                        assert((seq![k] + rest)[i] == rest[i - 1]);
                    }
                }
            },
            None => {},
        }
    }
}

/// The skills found in a repository come in the order of their paths in it
/// (the order a sorted walk gives), each skill found exactly once, and none
/// at the repository root.
pub proof fn law_skills_sorted_by_path(files: Seq<(String, Option<String>)>, root: Seq<char>)
    ensures
        ({
            let out = sorted_v(skills_found(files, root)).map_values(
                |p: (Seq<char>, DiscoveredSkillView)| p.1,
            );
            &&& forall|i: int, j: int|
                0 <= i < j < out.len() ==> lex_le(#[trigger] out[i].repo_path, #[trigger] out[j].repo_path)
            &&& out.len() == skills_found(files, root).len()
            &&& sorted_v(skills_found(files, root)).to_multiset() == skills_found(files, root).to_multiset()
            &&& forall|i: int| 0 <= i < out.len() ==> (#[trigger] out[i]).repo_path.len() > 0
        }),
{
    broadcast use vstd::seq_lib::group_to_multiset_ensures;

    let found = skills_found(files, root);
    let sorted = sorted_v(found);
    lemma_found_keyed_by_path(files, root);
    lemma_sorted_v(found);
    assert forall|i: int| 0 <= i < sorted.len() implies (#[trigger] sorted[i]).0 == sorted[i].1.repo_path
        && sorted[i].0.len() > 0 by {
        vstd::seq_lib::to_multiset_contains(sorted, sorted[i]);
        vstd::seq_lib::to_multiset_contains(found, sorted[i]);
        assert(sorted.contains(sorted[i]));
        let j = choose|j: int| 0 <= j < found.len() && found[j] == sorted[i];
        assert(found[j] == sorted[i]);
    }
    let out = sorted.map_values(|p: (Seq<char>, DiscoveredSkillView)| p.1);
    assert forall|i: int, j: int| 0 <= i < j < out.len() implies lex_le(
        #[trigger] out[i].repo_path,
        #[trigger] out[j].repo_path,
    ) by {
        assert(out[i] == sorted[i].1 && out[j] == sorted[j].1);
        assert(lex_le(sorted[i].0, sorted[j].0));
        assert(sorted[i].0 == sorted[i].1.repo_path);
        assert(sorted[j].0 == sorted[j].1.repo_path);
    }
    assert forall|i: int| 0 <= i < out.len() implies (#[trigger] out[i]).repo_path.len() > 0 by {
        assert(out[i] == sorted[i].1);
        assert(sorted[i].0 == sorted[i].1.repo_path);
    }
}

/// Where to search a clone for skills: its root, or the given path in it.
pub fn search_root_for(repo_path: &str, search_path: &str) -> (r: String)
    ensures
        r@ == if search_path@.len() == 0 {
            repo_path@
        } else {
            join(repo_path@, search_path@)
        },
{
    if search_path.is_empty() {
        lit(repo_path)
    } else {
        join_paths(repo_path, search_path)
    }
}

/// The skills of a cloned repository below the search root: an error when
/// the search root does not exist, else the skills among the files found
/// there, sorted by path.
pub fn discover_skills_in_repo(
    repo_path: &str,
    search_path: &str,
    search_root_exists: bool,
    files: Vec<(String, Option<String>)>,
) -> (r: Result<Vec<DiscoveredSkill>, ApsError>)
    ensures
        !search_root_exists ==> (r matches Err(ApsError::SourcePathNotFound { path }) && path@ == (
        if search_path@.len() == 0 {
            repo_path@
        } else {
            join(repo_path@, search_path@)
        })),
        search_root_exists ==> (r matches Ok(v) && v@.map_values(|k: DiscoveredSkill| k@)
            == sorted_v(skills_found(files@, repo_path@)).map_values(
            |p: (Seq<char>, DiscoveredSkillView)| p.1,
        )),
{
    if !search_root_exists {
        return Err(ApsError::SourcePathNotFound { path: search_root_for(repo_path, search_path) });
    }
    Ok(find_skills_in_directory(files, repo_path))
}

/// The label of a skill in the selection list: its name, and its description
/// after a dash when it has one.
pub fn skill_label(skill: &DiscoveredSkill) -> (r: String)
    ensures
        r@ == match skill.description {
            Some(d) => skill.name@ + " - "@ + d@,
            None => skill.name@,
        },
{
    match &skill.description {
        Some(d) => cat3(skill.name.as_str(), " - ", d.as_str()),
        None => skill.name.clone(),
    }
}

} // verus!
