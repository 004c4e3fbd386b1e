//! Composing several markdown files into one.
use crate::error::{string_views, ApsError};
use crate::manifest::Entry;
use crate::text::{chars_of, concat, join_from, join_with, string_of, trim_all, trim_each, views};
use vstd::prelude::*;

verus! {

/// The first line of a composed file.
pub const COMPOSED_HEADER: &'static str = "<!-- auto-generated by aps (https://github.com/westonplatter/agentic-prompt-sync): edit the sources, not this file -->";

/// A composed file: the header, then the text of each source with surrounding
/// whitespace trimmed, in the order given, each part separated from the next
/// by a blank line, and a final newline.
pub open spec fn composed(header: Seq<char>, parts: Seq<Seq<char>>) -> Seq<char> {
    header + "\n\n"@ + join_with(trim_each(parts), "\n\n"@) + "\n"@
}

/// The texts of the sources composed into one file, in order, under the header.
pub fn compose_markdown(contents: &Vec<String>) -> (r: String)
    ensures
        r@ == composed(COMPOSED_HEADER@, string_views(contents@)),
{
    let mut parts: Vec<Vec<char>> = Vec::new();
    let mut i: usize = 0;
    while i < contents.len()
        invariant
            i <= contents@.len(),
            views(parts@) == string_views(contents@).take(i as int),
        decreases contents@.len() - i,
    {
        let ghost before = views(parts@);
        parts.push(chars_of(contents[i].as_str()));
        assert(views(parts@) =~= before.push(contents@[i as int]@));
        assert(string_views(contents@).take(i + 1) =~= string_views(contents@).take(i as int).push(
            contents@[i as int]@,
        ));
        i = i + 1;
    }
    assert(string_views(contents@).take(contents@.len() as int) =~= string_views(contents@));
    let trimmed = trim_all(&parts);
    assert(views(trimmed@).skip(0) =~= views(trimmed@));
    let body = join_from(&trimmed, 0, chars_of("\n\n").as_slice());
    let head = concat(chars_of(COMPOSED_HEADER).as_slice(), chars_of("\n\n").as_slice());
    let with_body = concat(head.as_slice(), body.as_slice());
    let all = concat(with_body.as_slice(), chars_of("\n").as_slice());
    string_of(all.as_slice())
}

/// A composed entry needs at least one source.
pub fn require_sources(entry: &Entry) -> (r: Result<(), ApsError>)
    ensures
        entry.sources@.len() > 0 <==> r is Ok,
        r matches Err(e) ==> e matches ApsError::CompositeRequiresSources { id } && id@ == entry.id@,
{
    if entry.sources.len() == 0 {
        Err(ApsError::CompositeRequiresSources { id: entry.id.clone() })
    } else {
        Ok(())
    }
}

} // verus!
