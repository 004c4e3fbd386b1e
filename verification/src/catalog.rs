//! The asset catalog: every individual asset the manifest syncs, with a short
//! description read from the asset's own text.
use crate::error::{cat2, cat3, lit, string_views, ApsError};
use crate::manifest::{default_dest_of, AssetKind, Entry, Manifest};
use crate::order::{lemma_sorted_seq, lex_le, seen, sort_by_key, sorted_seq};
use crate::paths::file_name;
use crate::sources::expansion_of;
use crate::paths::{join, join_paths, parent, parent_of};
use crate::text::{
    chars_of, concat, find_first, find_first_of, has_prefix, last_index_of, lines, lines_of,
    rfind_char, slice_copy, starts_with, string_of, strip_all_prefix, strip_all_suffix, trim,
    trim_chars, trim_end_matches, trim_start, trim_start_index, trim_start_matches, views,
    has_any_prefix, name_included, opt_str_view, opt_view,
};
use vstd::prelude::*;

verus! {

/// Default catalog filename
pub const CATALOG_FILENAME: &'static str = "aps.catalog.yaml";

/// The frontmatter of a document: the text after an opening `---` up to the
/// next line that starts with `---`.
pub open spec fn frontmatter_of(content: Seq<char>) -> Option<Seq<char>> {
    if starts_with(content, "---"@) {
        let rest = content.skip(3);
        match find_first(rest, "\n---"@) {
            Some(i) => Some(rest.take(i)),
            None => None,
        }
    } else {
        None
    }
}

/// `v` without surrounding quotes (`trim_matches('"')`, then `trim_matches('\'')`).
pub open spec fn unquote(v: Seq<char>) -> Seq<char> {
    let a = strip_all_suffix(strip_all_prefix(v, "\""@), "\""@);
    strip_all_suffix(strip_all_prefix(a, "'"@), "'"@)
}

/// The value after `prefix` on a trimmed line, trimmed and unquoted.
pub open spec fn value_after(t: Seq<char>, prefix: Seq<char>) -> Seq<char> {
    unquote(trim(t.skip(prefix.len() as int)))
}

/// The first non-empty value of a line starting with `prefix`.
pub open spec fn field_in_lines(ls: Seq<Seq<char>>, prefix: Seq<char>) -> Option<Seq<char>>
    decreases ls.len(),
{
    if ls.len() == 0 {
        None
    } else {
        let t = trim(ls[0]);
        if starts_with(t, prefix) && value_after(t, prefix).len() > 0 {
            Some(value_after(t, prefix))
        } else {
            field_in_lines(ls.drop_first(), prefix)
        }
    }
}

/// The value of `field` in the frontmatter, if it is there and not empty.
pub open spec fn frontmatter_field(content: Seq<char>, field: Seq<char>) -> Option<Seq<char>> {
    match frontmatter_of(content) {
        Some(fm) => field_in_lines(lines_of(fm), field + ":"@),
        None => None,
    }
}

/// The document without its frontmatter, leading whitespace removed.
pub open spec fn without_frontmatter(content: Seq<char>) -> Seq<char> {
    if starts_with(content, "---"@) {
        let rest = content.skip(3);
        match find_first(rest, "\n---"@) {
            Some(i) => trim_start(rest.skip(i + 4)),
            None => content,
        }
    } else {
        content
    }
}

/// The first paragraph of the remaining lines, given what was gathered so
/// far: blank lines and headings before it are skipped, a heading or a blank
/// line ends it, and its lines are joined with single spaces. A code fence
/// after some text ends it; a code fence before any text ends the search too,
/// unless `fence_skips` holds, in which case the whole code block, up to and
/// including its closing fence, is skipped (`in_fence` marks the lines inside).
pub open spec fn paragraph_scan(
    ls: Seq<Seq<char>>,
    acc: Seq<char>,
    fence_skips: bool,
    in_fence: bool,
) -> Seq<char>
    decreases ls.len(),
{
    if ls.len() == 0 {
        acc
    } else {
        let t = trim(ls[0]);
        let rest = ls.drop_first();
        if in_fence {
            paragraph_scan(rest, acc, fence_skips, !starts_with(t, "```"@))
        } else if acc.len() == 0 && t.len() == 0 {
            paragraph_scan(rest, acc, fence_skips, false)
        } else if starts_with(t, "#"@) {
            if acc.len() == 0 {
                paragraph_scan(rest, acc, fence_skips, false)
            } else {
                acc
            }
        } else if starts_with(t, "```"@) {
            if acc.len() == 0 && fence_skips {
                paragraph_scan(rest, acc, fence_skips, true)
            } else {
                acc
            }
        } else if t.len() == 0 {
            acc
        } else if acc.len() == 0 {
            paragraph_scan(rest, t, fence_skips, false)
        } else {
            paragraph_scan(rest, acc + " "@ + t, fence_skips, false)
        }
    }
}

/// The first paragraph of a document, trimmed.
pub open spec fn first_paragraph(content: Seq<char>, fence_skips: bool) -> Seq<char> {
    trim(paragraph_scan(lines_of(content), Seq::empty(), fence_skips, false))
}

/// `s` if it has at most `max` characters; otherwise its first `max - 3`
/// characters, cut back to the last space when there is one, followed by `...`.
pub open spec fn truncated(s: Seq<char>, max: int) -> Seq<char> {
    if s.len() <= max {
        s
    } else {
        let t = s.take(max - 3);
        match last_index_of(t, ' ') {
            Some(k) => t.take(k) + "..."@,
            None => t + "..."@,
        }
    }
}

/// Truncates a description to `max_len` characters, adding an ellipsis when cut.
pub fn truncate_description(s: &str, max_len: usize) -> (r: String)
    requires
        s@.len() > max_len ==> max_len >= 3,
    ensures
        r@ == truncated(s@, max_len as int),
{
    let v = chars_of(s);
    if v.len() <= max_len {
        return lit(s);
    }
    let head = slice_copy(v.as_slice(), 0, max_len - 3);
    assert(head@ =~= s@.take(max_len - 3));
    match rfind_char(head.as_slice(), ' ') {
        Some(k) => {
            let kept = slice_copy(head.as_slice(), 0, k);
            assert(kept@ =~= head@.take(k as int));
            let kept_s = string_of(kept.as_slice());
            cat2(kept_s.as_str(), "...")
        },
        None => {
            let head_s = string_of(head.as_slice());
            cat2(head_s.as_str(), "...")
        },
    }
}

/// The value of `field` in a document's frontmatter, if set and not empty.
pub fn extract_frontmatter_field(content: &str, field: &str) -> (r: Option<String>)
    ensures
        match frontmatter_field(content@, field@) {
            Some(v) => r matches Some(x) && x@ == v,
            None => r is None,
        },
{
    let c = chars_of(content);
    let dashes = chars_of("---");
    if !has_prefix(c.as_slice(), dashes.as_slice()) {
        return None;
    }
    proof {
        reveal_strlit("---");
    }
    let n = c.len();
    let rest = slice_copy(c.as_slice(), 3, n);
    assert(rest@ =~= content@.skip(3));
    let close = chars_of("\n---");
    let end = match find_first_of(rest.as_slice(), close.as_slice()) {
        Some(e) => e,
        None => {
            return None;
        },
    };
    let fm = slice_copy(rest.as_slice(), 0, end);
    assert(fm@ =~= rest@.take(end as int));
    let ls = lines(fm.as_slice());
    let fieldv = chars_of(field);
    let colon = chars_of(":");
    let prefix = concat(fieldv.as_slice(), colon.as_slice());
    let dq = chars_of("\"");
    let sq = chars_of("'");
    assert(frontmatter_of(content@) == Some(fm@));
    assert(views(ls@).skip(0) =~= views(ls@));
    assert(frontmatter_field(content@, field@) == field_in_lines(views(ls@), prefix@));
    let mut i: usize = 0;
    while i < ls.len()
        invariant
            i <= ls@.len(),
            prefix@ == field@ + ":"@,
            dq@ == "\""@,
            sq@ == "'"@,
            frontmatter_field(content@, field@) == field_in_lines(views(ls@), prefix@),
            field_in_lines(views(ls@), prefix@) == field_in_lines(views(ls@).skip(i as int), prefix@),
        decreases ls@.len() - i,
    {
        let ghost cur = views(ls@).skip(i as int);
        assert(cur[0] == ls@[i as int]@);
        assert(cur.drop_first() =~= views(ls@).skip(i + 1));
        let t = trim_chars(ls[i].as_slice());
        if has_prefix(t.as_slice(), prefix.as_slice()) {
            let m = t.len();
            let after = slice_copy(t.as_slice(), prefix.len(), m);
            let v0 = trim_chars(after.as_slice());
            let v1 = trim_start_matches(v0.as_slice(), dq.as_slice());
            let v2 = trim_end_matches(v1.as_slice(), dq.as_slice());
            let v3 = trim_start_matches(v2.as_slice(), sq.as_slice());
            let v4 = trim_end_matches(v3.as_slice(), sq.as_slice());
            assert(after@ =~= t@.skip(prefix@.len() as int));
            assert(v4@ == value_after(t@, prefix@));
            if v4.len() > 0 {
                assert(field_in_lines(cur, prefix@) == Some(v4@));
                return Some(string_of(v4.as_slice()));
            }
        }
        i = i + 1;
    }
    None
}

/// The `description` field of a document's frontmatter, if set and not empty.
pub fn extract_frontmatter_description(content: &str) -> (r: Option<String>)
    ensures
        match frontmatter_field(content@, "description"@) {
            Some(v) => r matches Some(x) && x@ == v,
            None => r is None,
        },
{
    extract_frontmatter_field(content, "description")
}

/// The document without its frontmatter.
pub fn strip_frontmatter(content: &str) -> (r: String)
    ensures
        r@ == without_frontmatter(content@),
{
    let c = chars_of(content);
    let dashes = chars_of("---");
    if !has_prefix(c.as_slice(), dashes.as_slice()) {
        return lit(content);
    }
    proof {
        reveal_strlit("---");
        reveal_strlit("\n---");
    }
    let n = c.len();
    let rest = slice_copy(c.as_slice(), 3, n);
    assert(rest@ =~= content@.skip(3));
    let close = chars_of("\n---");
    match find_first_of(rest.as_slice(), close.as_slice()) {
        Some(e) => {
            let m = rest.len();
            let after = slice_copy(rest.as_slice(), e + 4, m);
            assert(after@ =~= rest@.skip(e + 4));
            let k = trim_start_index(after.as_slice());
            let out = slice_copy(after.as_slice(), k, after.len());
            assert(out@ =~= after@.skip(k as int));
            string_of(out.as_slice())
        },
        None => lit(content),
    }
}

/// The first paragraph of the lines, joined with spaces.
fn scan_paragraph(ls: &Vec<Vec<char>>, fence_skips: bool) -> (r: Vec<char>)
    ensures
        r@ == paragraph_scan(views(ls@), Seq::empty(), fence_skips, false),
{
    let hash = chars_of("#");
    let fence = chars_of("```");
    let mut acc: Vec<char> = Vec::new();
    let mut in_fence = false;
    let mut i: usize = 0;
    assert(views(ls@).skip(0) =~= views(ls@));
    while i < ls.len()
        invariant
            i <= ls@.len(),
            hash@ == "#"@,
            fence@ == "```"@,
            paragraph_scan(views(ls@), Seq::empty(), fence_skips, false) == paragraph_scan(
                views(ls@).skip(i as int),
                acc@,
                fence_skips,
                in_fence,
            ),
        decreases ls@.len() - i,
    {
        let ghost cur = views(ls@).skip(i as int);
        assert(cur[0] == ls@[i as int]@);
        assert(cur.drop_first() =~= views(ls@).skip(i + 1));
        let t = trim_chars(ls[i].as_slice());
        if in_fence {
            if has_prefix(t.as_slice(), fence.as_slice()) {
                in_fence = false;
            }
        } else if acc.len() == 0 && t.len() == 0 {
        } else if has_prefix(t.as_slice(), hash.as_slice()) {
            if acc.len() > 0 {
                return acc;
            }
        } else if has_prefix(t.as_slice(), fence.as_slice()) {
            if acc.len() > 0 || !fence_skips {
                return acc;
            }
            in_fence = true;
        } else if t.len() == 0 {
            return acc;
        } else if acc.len() == 0 {
            acc = t;
        } else {
            let with_space = concat(acc.as_slice(), chars_of(" ").as_slice());
            acc = concat(with_space.as_slice(), t.as_slice());
        }
        i = i + 1;
    }
    assert(views(ls@).skip(i as int) =~= Seq::<Seq<char>>::empty());
    acc
}

/// The first paragraph of a document, trimmed.
pub fn first_paragraph_of(content: &str, fence_skips: bool) -> (r: String)
    ensures
        r@ == first_paragraph(content@, fence_skips),
{
    let c = chars_of(content);
    let ls = lines(c.as_slice());
    let p = scan_paragraph(&ls, fence_skips);
    let t = trim_chars(p.as_slice());
    string_of(t.as_slice())
}

/// The first paragraph of markdown text, cut to 200 characters; `None` when
/// there is none.
pub fn extract_first_paragraph(content: &str) -> (r: Option<String>)
    ensures
        first_paragraph(content@, true).len() == 0 ==> r is None,
        first_paragraph(content@, true).len() > 0 ==> (r matches Some(x) && x@ == truncated(
            first_paragraph(content@, true),
            200,
        )),
{
    let p = first_paragraph_of(content, true);
    if p.as_str().is_empty() {
        None
    } else {
        Some(truncate_description(p.as_str(), 200))
    }
}

/// What a description read from a document says: its first paragraph, cut to
/// 200 characters, if it has one.
pub open spec fn paragraph_description(c: Seq<char>) -> Option<Seq<char>> {
    if first_paragraph(c, true).len() == 0 {
        None
    } else {
        Some(truncated(first_paragraph(c, true), 200))
    }
}

/// The description of a rule or skill file: its frontmatter `description`,
/// else the first paragraph of `body`, either cut to 200 characters.
pub open spec fn described(c: Seq<char>, body: Seq<char>) -> Option<Seq<char>> {
    match frontmatter_field(c, "description"@) {
        Some(d) => Some(truncated(d, 200)),
        None => paragraph_description(body),
    }
}

/// Description of an AGENTS.md file from its content, if it could be read.
pub fn extract_agents_md_description(content: Option<&str>) -> (r: Option<String>)
    ensures
        opt_view(r) == match content {
            Some(c) => paragraph_description(c@),
            None => None,
        },
{
    match content {
        Some(c) => extract_first_paragraph(c),
        None => None,
    }
}

/// Description of a Cursor rule file: its frontmatter `description`, else
/// the first paragraph after the frontmatter.
pub fn extract_cursor_rule_description(content: Option<&str>) -> (r: Option<String>)
    ensures
        opt_view(r) == match content {
            Some(c) => described(c@, without_frontmatter(c@)),
            None => None,
        },
{
    match content {
        Some(c) => match extract_frontmatter_description(c) {
            Some(d) => Some(truncate_description(d.as_str(), 200)),
            None => {
                let body = strip_frontmatter(c);
                extract_first_paragraph(body.as_str())
            },
        },
        None => None,
    }
}

/// Description of a Cursor skill folder from its SKILL.md, if present:
/// frontmatter `description`, else the first paragraph.
pub fn extract_cursor_skill_description(skill_md: Option<&str>) -> (r: Option<String>)
    ensures
        opt_view(r) == match skill_md {
            Some(c) => described(c@, c@),
            None => None,
        },
{
    match skill_md {
        Some(c) => match extract_frontmatter_description(c) {
            Some(d) => Some(truncate_description(d.as_str(), 200)),
            None => extract_first_paragraph(c),
        },
        None => None,
    }
}

/// Description of an agent skill folder: from SKILL.md as for a Cursor
/// skill, else the first paragraph of README.md.
pub open spec fn agent_skill_described(skill: Option<Seq<char>>, readme: Option<Seq<char>>) -> Option<
    Seq<char>,
> {
    match skill {
        Some(c) if described(c, c) is Some => described(c, c),
        _ => match readme {
            Some(t) => paragraph_description(t),
            None => None,
        },
    }
}

/// Description of an agent skill folder from its SKILL.md and README.md,
/// where present.
pub fn extract_agent_skill_description(skill_md: Option<&str>, readme: Option<&str>) -> (r:
    Option<String>)
    ensures
        opt_view(r) == agent_skill_described(opt_str_view(skill_md), opt_str_view(readme)),
{
    if let Some(c) = skill_md {
        let d = extract_cursor_skill_description(Some(c));
        if d.is_some() {
            return d;
        }
    }
    match readme {
        Some(t) => extract_first_paragraph(t),
        None => None,
    }
}

/// One asset in the catalog.
#[derive(Debug, Clone)]
pub struct CatalogEntry {
    /// `<manifest entry id>:<asset name>`
    pub id: String,
    /// Name of the asset
    pub name: String,
    /// Kind of asset
    pub kind: AssetKind,
    /// Where the asset is installed
    pub destination: String,
    /// Description read from the asset
    pub short_description: Option<String>,
}

/// The content of a catalog entry.
pub struct CatalogEntryView {
    pub id: Seq<char>,
    pub name: Seq<char>,
    pub kind: AssetKind,
    pub destination: Seq<char>,
    pub short_description: Option<Seq<char>>,
}

impl View for CatalogEntry {
    type V = CatalogEntryView;

    open spec fn view(&self) -> CatalogEntryView {
        CatalogEntryView {
            id: self.id@,
            name: self.name@,
            kind: self.kind,
            destination: self.destination@,
            short_description: opt_view(self.short_description),
        }
    }
}

/// The contents of a list of catalog entries.
pub open spec fn entry_views(s: Seq<CatalogEntry>) -> Seq<CatalogEntryView> {
    s.map_values(|e: CatalogEntry| e@)
}

/// The catalog.
#[derive(Debug, Clone)]
pub struct Catalog {
    /// Catalog format version
    pub version: u32,
    /// All assets
    pub entries: Vec<CatalogEntry>,
}

impl Default for Catalog {
    fn default() -> (r: Catalog)
        ensures
            r.version == 1,
            r.entries@.len() == 0,
    {
        Catalog { version: 1, entries: Vec::new() }
    }
}

/// An asset found in a source directory: its file or folder name and the
/// description read from it.
pub type FoundAsset = (String, Option<String>);

/// The assets whose names pass the prefixes filter and are not empty, in order.
pub open spec fn included_assets(s: Seq<FoundAsset>, prefixes: Seq<Seq<char>>) -> Seq<FoundAsset>
    decreases s.len(),
{
    if s.len() == 0 {
        s
    } else {
        let rest = included_assets(s.drop_first(), prefixes);
        if s[0].0@.len() > 0 && name_included(s[0].0@, prefixes) {
            seq![s[0]] + rest
        } else {
            rest
        }
    }
}

/// The assets a directory entry lists are exactly those of its directory
/// that have a name passing the include filter, in directory order: with no
/// prefixes every named asset, otherwise each whose name starts with one of
/// them.
pub proof fn law_included_assets_filter(s: Seq<FoundAsset>, prefixes: Seq<Seq<char>>)
    ensures
        included_assets(s, prefixes) == s.filter(
            |a: FoundAsset|
                a.0@.len() > 0 && (prefixes.len() == 0 || exists|i: int|
                    0 <= i < prefixes.len() && starts_with(a.0@, #[trigger] prefixes[i])),
        ),
        prefixes.len() == 0 ==> included_assets(s, prefixes) == s.filter(|a: FoundAsset| a.0@.len() > 0),
    decreases s.len(),
{
    let pred = |a: FoundAsset|
        a.0@.len() > 0 && (prefixes.len() == 0 || exists|i: int|
            0 <= i < prefixes.len() && starts_with(a.0@, #[trigger] prefixes[i]));
    let named = |a: FoundAsset| a.0@.len() > 0;
    if s.len() == 0 {
        assert(s.filter(pred) =~= s);
        assert(s.filter(named) =~= s);
    } else {
        law_included_assets_filter(s.drop_first(), prefixes);
        assert(s =~= seq![s[0]] + s.drop_first());
        s.drop_first().lemma_filter_prepend(s[0], pred);
        s.drop_first().lemma_filter_prepend(s[0], named);
        assert(pred(s[0]) == (s[0].0@.len() > 0 && name_included(s[0].0@, prefixes)));
    }
}

/// With no include prefixes, the assets a directory entry lists are every
/// named asset of its directory, each once: the sorted selection holds the
/// same assets, as many times each, as the directory's named assets.
pub proof fn law_no_prefixes_lists_every_named_asset(s: Seq<FoundAsset>)
    ensures
        seen(sorted_seq(included_assets(s, Seq::empty()))).to_multiset() == seen(
            s.filter(|a: FoundAsset| a.0@.len() > 0),
        ).to_multiset(),
{
    law_included_assets_filter(s, Seq::empty());
    lemma_sorted_seq(included_assets(s, Seq::empty()));
}

/// The catalog entry of one asset of a directory entry.
pub open spec fn asset_view(
    entry_id: Seq<char>,
    kind: AssetKind,
    base_dest: Seq<char>,
    a: FoundAsset,
) -> CatalogEntryView {
    CatalogEntryView {
        id: entry_id + ":"@ + a.0@,
        name: a.0@,
        kind,
        destination: "./"@ + join(base_dest, a.0@),
        short_description: opt_view(a.1),
    }
}

/// The catalog entries of the assets of a directory entry.
pub open spec fn asset_views(
    entry_id: Seq<char>,
    kind: AssetKind,
    base_dest: Seq<char>,
    s: Seq<FoundAsset>,
) -> Seq<CatalogEntryView> {
    s.map_values(|a: FoundAsset| asset_view(entry_id, kind, base_dest, a))
}

/// What was found at an entry's source: the resolved path, whether it
/// exists, the description of a single file, and the files or folders in a
/// directory with their descriptions.
#[derive(Debug, Clone)]
pub struct EntryListing {
    pub source_path: String,
    pub exists: bool,
    pub file_description: Option<String>,
    pub assets: Vec<FoundAsset>,
}

/// The name of a single-file asset: the file name of its path, else `AGENTS.md`.
pub open spec fn single_name(source_path: Seq<char>) -> Seq<char> {
    match file_name(source_path) {
        Some(n) => n,
        None => "AGENTS.md"@,
    }
}

/// The catalog entries of one manifest entry, given its destination.
pub open spec fn entry_assets(e: Entry, l: EntryListing, base_dest: Seq<char>) -> Seq<
    CatalogEntryView,
> {
    match e.kind {
        AssetKind::AgentsMd => seq![
            CatalogEntryView {
                id: e.id@ + ":"@ + single_name(l.source_path@),
                name: single_name(l.source_path@),
                kind: AssetKind::AgentsMd,
                destination: "./"@ + base_dest,
                short_description: opt_view(l.file_description),
            },
        ],
        AssetKind::CompositeAgentsMd => Seq::empty(),
        _ => asset_views(
            e.id@,
            e.kind,
            base_dest,
            sorted_seq(included_assets(l.assets@, string_views(e.include_prefixes@))),
        ),
    }
}

/// The assets that pass the prefixes filter, sorted by name.
pub fn select_assets(assets: Vec<FoundAsset>, prefixes: &Vec<String>) -> (r: Vec<FoundAsset>)
    ensures
        r@ == sorted_seq(included_assets(assets@, string_views(prefixes@))),
{
    let mut kept: Vec<FoundAsset> = Vec::new();
    let mut src = assets;
    let ghost orig = src@;
    assert(orig.skip(0) =~= orig);
    while src.len() > 0
        invariant
            kept@ + included_assets(src@, string_views(prefixes@)) == included_assets(
                orig,
                string_views(prefixes@),
            ),
        decreases src@.len(),
    {
        let ghost before = src@;
        let a = src.remove(0);
        assert(before.drop_first() =~= src@);
        let keep = !a.0.as_str().is_empty() && (prefixes.len() == 0 || has_any_prefix(
            a.0.as_str(),
            prefixes,
        ));
        proof {
            let iv = string_views(prefixes@);
            if prefixes@.len() > 0 {
                if name_included(a.0@, iv) {
                    let i = choose|i: int| 0 <= i < iv.len() && starts_with(a.0@, #[trigger] iv[i]);
                    assert(starts_with(a.0@, prefixes@[i]@));
                }
                if exists|i: int| 0 <= i < prefixes@.len() && starts_with(a.0@, #[trigger] prefixes@[i]@) {
                    let i = choose|i: int| 0 <= i < prefixes@.len() && starts_with(a.0@, #[trigger] prefixes@[i]@);
                    assert(starts_with(a.0@, iv[i]));
                }
            }
        }
        let ghost ga = a;
        assert(before[0] == ga);
        assert(included_assets(before, string_views(prefixes@)) == if keep {
            seq![ga] + included_assets(src@, string_views(prefixes@))
        } else {
            included_assets(src@, string_views(prefixes@))
        });
        if keep {
            kept.push(a);
            assert(kept@ + included_assets(src@, string_views(prefixes@)) =~= included_assets(
                orig,
                string_views(prefixes@),
            ));
        }
        assert(before[0] == ga);
    }
    assert(included_assets(src@, string_views(prefixes@)) =~= Seq::<FoundAsset>::empty());
    assert(kept@ =~= included_assets(orig, string_views(prefixes@)));
    sort_by_key(kept)
}

/// Catalog entries for assets of a directory entry, in the given order.
pub fn catalog_entries_for(
    entry_id: &str,
    kind: AssetKind,
    base_dest: &str,
    assets: &Vec<FoundAsset>,
) -> (r: Vec<CatalogEntry>)
    ensures
        entry_views(r@) == asset_views(entry_id@, kind, base_dest@, assets@),
{
    let mut r: Vec<CatalogEntry> = Vec::new();
    let mut i: usize = 0;
    while i < assets.len()
        invariant
            i <= assets@.len(),
            entry_views(r@) == asset_views(entry_id@, kind, base_dest@, assets@.take(i as int)),
        decreases assets@.len() - i,
    {
        let name = &assets[i].0;
        let dest = join_paths(base_dest, name.as_str());
        let e = CatalogEntry {
            id: cat3(entry_id, ":", name.as_str()),
            name: name.clone(),
            kind,
            destination: cat2("./", dest.as_str()),
            short_description: assets[i].1.clone(),
        };
        let ghost old_v = entry_views(r@);
        r.push(e);
        assert(entry_views(r@) =~= old_v.push(e@));
        assert(assets@.take(i + 1) =~= assets@.take(i as int).push(assets@[i as int]));
        assert(asset_views(entry_id@, kind, base_dest@, assets@.take(i + 1)) =~= asset_views(
            entry_id@,
            kind,
            base_dest@,
            assets@.take(i as int),
        ).push(asset_view(entry_id@, kind, base_dest@, assets@[i as int])));
        i = i + 1;
    }
    assert(assets@.take(assets@.len() as int) =~= assets@);
    r
}

/// All catalog entries of one manifest entry, or the error that its source
/// is missing.
pub fn enumerate_entry_assets(entry: &Entry, listing: EntryListing) -> (r: Result<
    Vec<CatalogEntry>,
    ApsError,
>)
    ensures
        !listing.exists ==> (r matches Err(ApsError::SourcePathNotFound { path }) && path@
            == listing.source_path@),
        listing.exists ==> (r matches Ok(v) && exists|d: Seq<char>|
            dest_of(*entry, d) && entry_views(v@) == entry_assets(*entry, listing, d)),
{
    if !listing.exists {
        return Err(ApsError::SourcePathNotFound { path: listing.source_path.clone() });
    }
    let base_dest = entry.destination();
    assert(dest_of(*entry, base_dest@));
    match entry.kind {
        AssetKind::AgentsMd => {
            let name = match crate::paths::file_name_of(listing.source_path.as_str()) {
                Some(n) => n,
                None => lit("AGENTS.md"),
            };
            let e = CatalogEntry {
                id: cat3(entry.id.as_str(), ":", name.as_str()),
                name,
                kind: AssetKind::AgentsMd,
                destination: cat2("./", base_dest.as_str()),
                short_description: listing.file_description.clone(),
            };
            let mut v: Vec<CatalogEntry> = Vec::new();
            v.push(e);
            assert(entry_views(v@) =~= entry_assets(*entry, listing, base_dest@));
            Ok(v)
        },
        AssetKind::CompositeAgentsMd => {
            let v: Vec<CatalogEntry> = Vec::new();
            assert(entry_views(v@) =~= entry_assets(*entry, listing, base_dest@));
            Ok(v)
        },
        _ => {
            let ghost gl = listing;
            let selected = select_assets(listing.assets, &entry.include_prefixes);
            let v = catalog_entries_for(entry.id.as_str(), entry.kind, base_dest.as_str(), &selected);
            assert(entry_views(v@) == entry_assets(*entry, gl, base_dest@));
            Ok(v)
        },
    }
}

impl Catalog {
    /// An empty catalog of the current format.
    pub fn new() -> (r: Catalog)
        ensures
            r.version == 1,
            r.entries@.len() == 0,
    {
        Catalog::default()
    }

    /// The catalog path next to a manifest.
    pub fn path_for_manifest(manifest_path: &str) -> (r: String)
        ensures
            match parent(manifest_path@) {
                Some(p) => r@ == join(p, "aps.catalog.yaml"@),
                None => r@ == "aps.catalog.yaml"@,
            },
    {
        match parent_of(manifest_path) {
            Some(p) => join_paths(p.as_str(), CATALOG_FILENAME),
            None => lit(CATALOG_FILENAME),
        }
    }
}

/// `d` is a destination `e` can have: its override after shell expansion, or
/// its kind's default.
pub open spec fn dest_of(e: Entry, d: Seq<char>) -> bool {
    match e.dest {
        Some(x) => expansion_of(x@, d),
        None => d == default_dest_of(e.kind),
    }
}

/// The catalog entries of the first `n` manifest entries, in order.
pub open spec fn all_assets(
    es: Seq<Entry>,
    ls: Seq<EntryListing>,
    ds: Seq<Seq<char>>,
    n: int,
) -> Seq<CatalogEntryView>
    decreases n,
{
    if n <= 0 {
        Seq::empty()
    } else {
        all_assets(es, ls, ds, n - 1) + entry_assets(es[n - 1], ls[n - 1], ds[n - 1])
    }
}

impl Catalog {
    /// The catalog of a manifest, from what was found at each entry's source
    /// (`listings[i]` belongs to `manifest.entries[i]`). The first entry whose
    /// source is missing is reported.
    pub fn generate_from_manifest(manifest: &Manifest, listings: Vec<EntryListing>) -> (r: Result<
        Catalog,
        ApsError,
    >)
        requires
            listings@.len() == manifest.entries@.len(),
        ensures
            (forall|i: int| 0 <= i < listings@.len() ==> #[trigger] listings@[i].exists) ==> (
            r matches Ok(c) && c.version == 1 && exists|ds: Seq<Seq<char>>|
                ds.len() == manifest.entries@.len() && (forall|i: int|
                    0 <= i < ds.len() ==> dest_of(manifest.entries@[i], #[trigger] ds[i]))
                    && entry_views(c.entries@) == all_assets(
                    manifest.entries@,
                    listings@,
                    ds,
                    manifest.entries@.len() as int,
                )),
            r matches Err(e) ==> exists|i: int|
                0 <= i < listings@.len() && !(#[trigger] listings@[i]).exists && (forall|j: int|
                    0 <= j < i ==> listings@[j].exists) && (e matches ApsError::SourcePathNotFound {
                    path,
                } && path@ == listings@[i].source_path@),
            r is Ok <==> (forall|i: int| 0 <= i < listings@.len() ==> #[trigger] listings@[i].exists),
    {
        let mut catalog = Catalog::new();
        let mut rest = listings;
        let ghost all = rest@;
        let ghost es = manifest.entries@;
        let ghost mut ds: Seq<Seq<char>> = Seq::empty();
        let mut i: usize = 0;
        while i < manifest.entries.len()
            invariant
                i <= es.len(),
                es == manifest.entries@,
                all.len() == es.len(),
                all == listings@,
                rest@ == all.skip(i as int),
                catalog.version == 1,
                ds.len() == i,
                forall|k: int| 0 <= k < i ==> dest_of(es[k], #[trigger] ds[k]),
                forall|k: int| 0 <= k < i ==> #[trigger] all[k].exists,
                entry_views(catalog.entries@) == all_assets(es, all, ds, i as int),
            decreases es.len() - i,
        {
            let ghost before = rest@;
            let l = rest.remove(0);
            assert(before[0] == all[i as int]);
            assert(rest@ =~= all.skip(i + 1));
            if !l.exists {
                assert(!listings@[i as int].exists);
                return Err(ApsError::SourcePathNotFound { path: l.source_path });
            }
            let ghost gl = l;
            let found = enumerate_entry_assets(&manifest.entries[i], l);
            let v = match found {
                Ok(v) => v,
                Err(e) => {
                    return Err(e);
                },
            };
            assert(gl.exists);
            assert(manifest.entries@[i as int] == es[i as int]);
            assert(exists|d: Seq<char>|
                dest_of(es[i as int], d) && entry_views(v@) == entry_assets(es[i as int], gl, d));
            let ghost d = choose|d: Seq<char>|
                dest_of(es[i as int], d) && entry_views(v@) == entry_assets(es[i as int], gl, d);
            let ghost old_entries = entry_views(catalog.entries@);
            let mut k: usize = 0;
            let mut v = v;
            let ghost vv = entry_views(v@);
            while v.len() > 0
                invariant
                    entry_views(catalog.entries@) + entry_views(v@) == old_entries + vv,
                    catalog.version == 1,
                decreases v@.len(),
            {
                let ghost bv = v@;
                let x = v.remove(0);
                let ghost bc = entry_views(catalog.entries@);
                catalog.entries.push(x);
                assert(entry_views(catalog.entries@) =~= bc.push(x@));
                assert(entry_views(bv) =~= seq![x@] + entry_views(v@));
                assert(entry_views(catalog.entries@) + entry_views(v@) =~= bc + entry_views(bv));
            }
            assert(entry_views(v@) =~= Seq::<CatalogEntryView>::empty());
            proof {
                let new_ds = ds.push(d);
                assert(all_assets(es, all, new_ds, i as int) == all_assets(es, all, ds, i as int))
                    by {
                    lemma_all_assets_prefix(es, all, ds, new_ds, i as int);
                }
                ds = new_ds;
                assert(gl == all[i as int]);
                assert(all_assets(es, all, ds, i + 1) == all_assets(es, all, ds, i as int)
                    + entry_assets(es[i as int], all[i as int], d));
                assert(entry_views(catalog.entries@) =~= all_assets(es, all, ds, i + 1));
            }
            i = i + 1;
        }
        Ok(catalog)
    }
}

proof fn lemma_all_assets_prefix(
    es: Seq<Entry>,
    ls: Seq<EntryListing>,
    ds1: Seq<Seq<char>>,
    ds2: Seq<Seq<char>>,
    n: int,
)
    requires
        0 <= n <= ds1.len(),
        n <= ds2.len(),
        forall|k: int| 0 <= k < n ==> ds1[k] == ds2[k],
    ensures
        all_assets(es, ls, ds1, n) == all_assets(es, ls, ds2, n),
    decreases n,
{
    if n > 0 {
        lemma_all_assets_prefix(es, ls, ds1, ds2, n - 1);
    }
}

/// Every included asset is named and its name passes the filter.
proof fn lemma_included_pass(s: Seq<FoundAsset>, prefixes: Seq<Seq<char>>)
    ensures
        forall|i: int|
            0 <= i < included_assets(s, prefixes).len() ==> (#[trigger] included_assets(s, prefixes)[i]).0@.len()
                > 0 && name_included(included_assets(s, prefixes)[i].0@, prefixes),
    decreases s.len(),
{
    if s.len() > 0 {
        lemma_included_pass(s.drop_first(), prefixes);
        let rest = included_assets(s.drop_first(), prefixes);
        if s[0].0@.len() > 0 && name_included(s[0].0@, prefixes) {
            assert forall|i: int| 0 <= i < included_assets(s, prefixes).len() implies (
            #[trigger] included_assets(s, prefixes)[i]).0@.len() > 0 && name_included(
                included_assets(s, prefixes)[i].0@,
                prefixes,
            ) by {
                if i > 0 {
                    assert(included_assets(s, prefixes)[i] == rest[i - 1]);
                }
            }
        }
    }
}

/// The catalog lists the assets of a directory entry by name, in order:
/// each named, each passing the entry's include filter, each with the
/// entry's kind and an id made of the entry's id and the asset's name.
pub proof fn law_catalog_assets_by_name(e: Entry, l: EntryListing, d: Seq<char>)
    requires
        e.kind != AssetKind::AgentsMd,
        e.kind != AssetKind::CompositeAgentsMd,
    ensures
        ({
            let out = entry_assets(e, l, d);
            &&& forall|i: int, j: int|
                0 <= i < j < out.len() ==> lex_le(#[trigger] out[i].name, #[trigger] out[j].name)
            &&& forall|i: int|
                0 <= i < out.len() ==> (#[trigger] out[i]).name.len() > 0 && name_included(
                    out[i].name,
                    string_views(e.include_prefixes@),
                ) && out[i].kind == e.kind && out[i].id == e.id@ + ":"@ + out[i].name
        }),
{
    broadcast use vstd::seq_lib::group_to_multiset_ensures;

    let prefixes = string_views(e.include_prefixes@);
    let inc = included_assets(l.assets@, prefixes);
    let sorted = sorted_seq(inc);
    lemma_sorted_seq(inc);
    lemma_included_pass(l.assets@, prefixes);
    let out = entry_assets(e, l, d);
    assert(out == asset_views(e.id@, e.kind, d, sorted));
    assert forall|i: int, j: int| 0 <= i < j < out.len() implies lex_le(
        #[trigger] out[i].name,
        #[trigger] out[j].name,
    ) by {
        assert(out[i].name == sorted[i].0@ && out[j].name == sorted[j].0@);
    }
    assert forall|i: int| 0 <= i < out.len() implies (#[trigger] out[i]).name.len() > 0 && name_included(
        out[i].name,
        prefixes,
    ) && out[i].kind == e.kind && out[i].id == e.id@ + ":"@ + out[i].name by {
        assert(out[i].name == sorted[i].0@);
        let v = seen(sorted)[i];
        assert(v == (sorted[i].0@, sorted[i].1@));
        assert(seen(sorted).to_multiset().count(v) > 0);
        assert(seen(inc).contains(v));
        let k = choose|k: int| 0 <= k < seen(inc).len() && seen(inc)[k] == v;
        assert(seen(inc)[k].0 == inc[k].0@);
    }
}

} // verus!
