//! Reading a GitHub URL into repository, ref and path.
//!
//! Supported forms: `https://github.com/{owner}/{repo}`,
//! `https://github.com/{owner}/{repo}/tree/{ref}[/{path}]` and
//! `https://github.com/{owner}/{repo}/blob/{ref}/{path}`.
use crate::error::{cat2, cat3, ApsError};
use crate::text::{
    chars_eq, chars_of, ends_with, has_suffix, join_from, join_with, last_index_of, rfind_char,
    segments, segments_of, string_of, strip_all_suffix, trim, trim_end_matches, trim_str, views, opt_view,
};
use vstd::prelude::*;

verus! {

/// Components of a GitHub URL.
#[derive(Debug, Clone, PartialEq)]
pub struct ParsedGitHubUrl {
    /// Repository URL, e.g. `https://github.com/owner/repo.git`
    pub repo_url: String,
    /// Git ref (branch, tag or commit)
    pub git_ref: String,
    /// Path within the repository
    pub path: String,
    /// Whether the path names a SKILL.md file
    pub is_skill_file: bool,
    /// Whether the URL names a whole repository rather than one skill
    pub is_repo_level: bool,
}

/// The mathematical content of a `ParsedGitHubUrl`.
pub struct GitHubUrlView {
    pub repo_url: Seq<char>,
    pub git_ref: Seq<char>,
    pub path: Seq<char>,
    pub is_skill_file: bool,
    pub is_repo_level: bool,
}

impl View for ParsedGitHubUrl {
    type V = GitHubUrlView;

    open spec fn view(&self) -> GitHubUrlView {
        GitHubUrlView {
            repo_url: self.repo_url@,
            git_ref: self.git_ref@,
            path: self.path@,
            is_skill_file: self.is_skill_file,
            is_repo_level: self.is_repo_level,
        }
    }
}

/// What `url::Url::parse` makes of a text: the host (`host_str`) and the
/// path (`path`) of the URL, or the text of the error it fails with.
pub uninterp spec fn url_parse(s: Seq<char>) -> Result<(Option<Seq<char>>, Seq<char>), Seq<char>>;

/// `url::Url::parse` followed by reading the host and the path of the result.
/// Nothing is claimed about what the url crate accepts or how it normalises the
/// host and the path: the outcome is named `url_parse` of the input text,
/// which it depends on alone.
#[verifier::external_body]
fn parse_url(s: &str) -> (r: Result<(Option<String>, String), String>)
    ensures
        match r {
            Ok(p) => url_parse(s@) == Ok::<(Option<Seq<char>>, Seq<char>), Seq<char>>(
                (opt_view(p.0), p.1@),
            ),
            Err(e) => url_parse(s@) == Err::<(Option<Seq<char>>, Seq<char>), Seq<char>>(e@),
        },
{
    match url::Url::parse(s) {
        Ok(u) => {
            let host = match u.host_str() {
                Some(h) => Some(h.to_string()),
                None => None,
            };
            Ok((host, u.path().to_string()))
        },
        Err(e) => Err(e.to_string()),
    }
}

/// Whether a repository path names a SKILL.md file.
pub open spec fn is_skill_md_path(p: Seq<char>) -> bool {
    ||| ends_with(p, "/SKILL.md"@)
    ||| ends_with(p, "/skill.md"@)
    ||| p == "SKILL.md"@
    ||| p == "skill.md"@
}

/// The clone URL of a GitHub repository.
pub open spec fn github_repo_url(owner: Seq<char>, repo: Seq<char>) -> Seq<char> {
    "https://github.com/"@ + owner + "/"@ + strip_all_suffix(repo, ".git"@) + ".git"@
}

pub open spec fn url_view(
    repo_url: Seq<char>,
    git_ref: Seq<char>,
    path: Seq<char>,
    is_skill_file: bool,
    is_repo_level: bool,
) -> GitHubUrlView {
    GitHubUrlView { repo_url, git_ref, path, is_skill_file, is_repo_level }
}

/// The clone URL of a repository ends in exactly one `.git`: a repository
/// name written with or without a trailing `.git` gives the same URL, and a
/// name without one gets `.git` appended once.
pub proof fn law_repo_url_single_git(owner: Seq<char>, repo: Seq<char>)
    ensures
        github_repo_url(owner, repo + ".git"@) == github_repo_url(owner, repo),
        !ends_with(repo, ".git"@) ==> github_repo_url(owner, repo) == "https://github.com/"@ + owner
            + "/"@ + repo + ".git"@,
{
    reveal_strlit(".git");
    let g = ".git"@;
    let r = repo + g;
    assert(r.subrange(r.len() - g.len(), r.len() as int) =~= g);
    assert(r.subrange(0, r.len() - g.len()) =~= repo);
}

/// What a GitHub URL with the given host and path denotes, or why it is rejected.
pub open spec fn github_url_from_parts(host: Option<Seq<char>>, path: Seq<char>) -> Result<
    GitHubUrlView,
    Seq<char>,
> {
    match host {
        None => Err("Missing host"@),
        Some(h) => if h != "github.com"@ && h != "www.github.com"@ {
            Err("Expected github.com host, got: "@ + h)
        } else {
            let segs = segments(path, '/');
            if segs.len() < 2 {
                Err("URL must include at least owner and repo"@)
            } else {
                let repo_url = github_repo_url(segs[0], segs[1]);
                if segs.len() == 2 {
                    Ok(url_view(repo_url, "auto"@, Seq::empty(), false, true))
                } else if segs[2] != "blob"@ && segs[2] != "tree"@ {
                    Err(
                        "Expected 'blob' or 'tree' in URL path, got: '"@ + segs[2]
                            + "'. URL should be like: https://github.com/owner/repo/blob/main/path/to/skill"@,
                    )
                } else if segs.len() < 4 {
                    Err("URL must include a ref after blob/tree"@)
                } else if segs.len() > 4 {
                    let p = join_with(segs.skip(4), "/"@);
                    Ok(url_view(repo_url, segs[3], p, is_skill_md_path(p), false))
                } else if segs[2] == "blob"@ {
                    Err("blob URL must include a file path after the ref"@)
                } else {
                    Ok(url_view(repo_url, segs[3], Seq::empty(), false, true))
                }
            }
        },
    }
}

/// Reading a GitHub URL does not depend on whether the repository is written
/// with `.git`: two paths whose segments differ only by a `.git` added to the
/// repository name read the same (same clone URL, ref and path, or the same
/// rejection).
pub proof fn law_parse_ignores_git_suffix(host: Option<Seq<char>>, p1: Seq<char>, p2: Seq<char>)
    requires
        segments(p1, '/').len() >= 2,
        segments(p2, '/') == segments(p1, '/').update(1, segments(p1, '/')[1] + ".git"@),
    ensures
        github_url_from_parts(host, p1) == github_url_from_parts(host, p2),
{
    let a = segments(p1, '/');
    let b = segments(p2, '/');
    law_repo_url_single_git(a[0], a[1]);
    assert(b[0] == a[0] && b[1] == a[1] + ".git"@);
    if a.len() > 2 {
        assert(b[2] == a[2]);
    }
    if a.len() > 3 {
        assert(b[3] == a[3]);
    }
    if a.len() > 4 {
        assert(b.skip(4) =~= a.skip(4));
    }
}

/// What a GitHub URL denotes, given what the url crate read from it.
pub open spec fn github_url_meaning(s: Seq<char>) -> Result<GitHubUrlView, Seq<char>> {
    match url_parse(trim(s)) {
        Err(e) => Err("Invalid URL format: "@ + e),
        Ok(parts) => github_url_from_parts(parts.0, parts.1),
    }
}

/// The result `parse_github_url` gives for an outcome of the model.
pub open spec fn matches_outcome(
    r: Result<ParsedGitHubUrl, ApsError>,
    url: Seq<char>,
    o: Result<GitHubUrlView, Seq<char>>,
) -> bool {
    match o {
        Ok(v) => r matches Ok(p) && p@ == v,
        Err(reason) => r matches Err(ApsError::InvalidGitHubUrl { url: u, reason: rs }) && u@
            == url && rs@ == reason,
    }
}

fn rejected(url: &str, reason: String) -> (r: Result<ParsedGitHubUrl, ApsError>)
    ensures
        r matches Err(ApsError::InvalidGitHubUrl { url: u, reason: rs }) && u@ == url@ && rs
            == reason,
{
    Err(ApsError::InvalidGitHubUrl { url: String::from_str(url), reason })
}

/// Reads a GitHub URL from the host and path that URL parsing produced.
/// `url` is the URL text quoted in errors.
pub fn parse_github_url_parts(url: &str, host: Option<String>, path: &str) -> (r: Result<
    ParsedGitHubUrl,
    ApsError,
>)
    ensures
        matches_outcome(r, url@, github_url_from_parts(opt_view(host), path@)),
{
    let h = match host {
        None => {
            return rejected(url, String::from_str("Missing host"));
        },
        Some(h) => h,
    };
    let hv = chars_of(h.as_str());
    let gh = chars_of("github.com");
    let wgh = chars_of("www.github.com");
    if !chars_eq(hv.as_slice(), gh.as_slice()) && !chars_eq(hv.as_slice(), wgh.as_slice()) {
        return rejected(url, cat2("Expected github.com host, got: ", h.as_str()));
    }
    let pv = chars_of(path);
    let segs = segments_of(pv.as_slice(), '/');
    if segs.len() < 2 {
        return rejected(url, String::from_str("URL must include at least owner and repo"));
    }
    let ghost sv = views(segs@);
    assert(sv[0] == segs@[0]@ && sv[1] == segs@[1]@);
    let dot_git = chars_of(".git");
    let repo = trim_end_matches(segs[1].as_slice(), dot_git.as_slice());
    let owner = string_of(segs[0].as_slice());
    let repo_s = string_of(repo.as_slice());
    let mut repo_url = cat3("https://github.com/", owner.as_str(), "/");
    repo_url.append(repo_s.as_str());
    repo_url.append(".git");
    if segs.len() == 2 {
        return Ok(
            ParsedGitHubUrl {
                repo_url,
                git_ref: String::from_str("auto"),
                path: String::new(),
                is_skill_file: false,
                is_repo_level: true,
            },
        );
    }
    assert(sv[2] == segs@[2]@);
    let blob = chars_of("blob");
    let tree = chars_of("tree");
    let is_blob = chars_eq(segs[2].as_slice(), blob.as_slice());
    let is_tree = chars_eq(segs[2].as_slice(), tree.as_slice());
    if !is_blob && !is_tree {
        let kind = string_of(segs[2].as_slice());
        return rejected(
            url,
            cat3(
                "Expected 'blob' or 'tree' in URL path, got: '",
                kind.as_str(),
                "'. URL should be like: https://github.com/owner/repo/blob/main/path/to/skill",
            ),
        );
    }
    if segs.len() < 4 {
        return rejected(url, String::from_str("URL must include a ref after blob/tree"));
    }
    assert(sv[3] == segs@[3]@);
    let git_ref = string_of(segs[3].as_slice());
    if segs.len() > 4 {
        let slash = chars_of("/");
        let joined = join_from(&segs, 4, slash.as_slice());
        let is_skill_file = is_skill_md(joined.as_slice());
        let path = string_of(joined.as_slice());
        return Ok(
            ParsedGitHubUrl { repo_url, git_ref, path, is_skill_file, is_repo_level: false },
        );
    }
    if is_blob {
        return rejected(
            url,
            String::from_str("blob URL must include a file path after the ref"),
        );
    }
    Ok(
        ParsedGitHubUrl {
            repo_url,
            git_ref,
            path: String::new(),
            is_skill_file: false,
            is_repo_level: true,
        },
    )
}

fn is_skill_md(p: &[char]) -> (b: bool)
    ensures
        b == is_skill_md_path(p@),
{
    let a = chars_of("/SKILL.md");
    let b = chars_of("/skill.md");
    let c = chars_of("SKILL.md");
    let d = chars_of("skill.md");
    has_suffix(p, a.as_slice()) || has_suffix(p, b.as_slice()) || chars_eq(p, c.as_slice())
        || chars_eq(p, d.as_slice())
}

/// Parses a GitHub URL into its components.
pub fn parse_github_url(url: &str) -> (r: Result<ParsedGitHubUrl, ApsError>)
    ensures
        matches_outcome(r, trim(url@), github_url_meaning(url@)),
{
    let t = trim_str(url);
    match parse_url(t.as_str()) {
        Err(e) => rejected(t.as_str(), cat2("Invalid URL format: ", e.as_str())),
        Ok(parts) => {
            let (host, path) = parts;
            parse_github_url_parts(t.as_str(), host, path.as_str())
        },
    }
}

/// The skill folder path of a URL path: the path without a trailing SKILL.md.
pub open spec fn skill_path_of(path: Seq<char>, is_skill_file: bool) -> Seq<char> {
    if !is_skill_file {
        path
    } else if path == "SKILL.md"@ || path == "skill.md"@ {
        Seq::empty()
    } else if ends_with(path, "/SKILL.md"@) || ends_with(path, "/skill.md"@) {
        path.subrange(0, path.len() - 9)
    } else {
        path
    }
}

/// The last `/`-separated component of `p`, if it is not empty.
pub open spec fn last_component(p: Seq<char>) -> Option<Seq<char>> {
    let tail = match last_index_of(p, '/') {
        Some(i) => p.skip(i + 1),
        None => p,
    };
    if tail.len() > 0 {
        Some(tail)
    } else {
        None
    }
}

impl ParsedGitHubUrl {
    /// The skill folder path (the path without a trailing SKILL.md).
    pub fn skill_path(&self) -> (r: &str)
        ensures
            r@ == skill_path_of(self.path@, self.is_skill_file),
    {
        let p = self.path.as_str();
        if !self.is_skill_file {
            return p;
        }
        let v = chars_of(p);
        let up = chars_of("SKILL.md");
        let low = chars_of("skill.md");
        if chars_eq(v.as_slice(), up.as_slice()) || chars_eq(v.as_slice(), low.as_slice()) {
            return p.substring_char(0, 0);
        }
        let sup = chars_of("/SKILL.md");
        let slow = chars_of("/skill.md");
        if has_suffix(v.as_slice(), sup.as_slice()) || has_suffix(v.as_slice(), slow.as_slice()) {
            proof {
                reveal_strlit("/SKILL.md");
                reveal_strlit("/skill.md");
            }
            let n = v.len();
            return p.substring_char(0, n - 9);
        }
        p
    }

    /// The skill name: the last component of the skill path, if not empty.
    pub fn skill_name(&self) -> (r: Option<&str>)
        ensures
            match last_component(skill_path_of(self.path@, self.is_skill_file)) {
                Some(c) => r matches Some(x) && x@ == c,
                None => r is None,
            },
    {
        let sp = self.skill_path();
        let v = chars_of(sp);
        let n = v.len();
        let start = match rfind_char(v.as_slice(), '/') {
            Some(i) => i + 1,
            None => 0,
        };
        if start < n {
            Some(sp.substring_char(start, n))
        } else {
            proof {
                if let Some(i) = last_index_of(v@, '/') {
                    assert(v@.skip(i + 1).len() == 0);
                }
            }
            None
        }
    }
}

} // verus!
