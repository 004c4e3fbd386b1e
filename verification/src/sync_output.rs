//! What `sync` reports: one line per entry and a summary.
use crate::error::{cat2, cat3, lit, string_views};
use crate::install::InstallResult;
use crate::text::{
    chars_of, concat, has_prefix, join_from, join_with, slice_copy, string_of, strip_all_prefix,
    trim_start_matches, views,
};
use vstd::prelude::*;
use vstd::string::StringSliceAdditionalSpecFns;
use vstd::utf8::{decode_utf8, encode_utf8, is_char_boundary};

verus! {

/// How an entry fared in a sync.
#[derive(Debug, Clone, Copy, PartialEq, Eq, Structural)]
pub enum SyncStatus {
    /// Symlinked
    Synced,
    /// Copied
    Copied,
    /// Already current
    Current,
    /// Current, with a newer version available
    Upgradable,
    /// Installed with warnings
    Warning,
    /// Failed
    Error,
}

/// One line of the sync report.
#[derive(Debug)]
pub struct SyncDisplayItem {
    pub id: String,
    pub dest_path: String,
    pub status: SyncStatus,
    pub message: Option<String>,
}

impl SyncDisplayItem {
    pub fn new(id: String, dest_path: String, status: SyncStatus) -> (r: SyncDisplayItem)
        ensures
            r.id == id,
            r.dest_path == dest_path,
            r.status == status,
            r.message is None,
    {
        SyncDisplayItem { id, dest_path, status, message: None }
    }

    /// The item with a message shown below it.
    pub fn with_message(self, message: String) -> (r: SyncDisplayItem)
        ensures
            r.id == self.id,
            r.dest_path == self.dest_path,
            r.status == self.status,
            r.message == Some(message),
    {
        let mut item = self;
        item.message = Some(message);
        item
    }
}

/// A destination shown relative to the manifest directory when it lies in it
/// (by text): `.` for the directory itself, else `./` and the rest without
/// leading `/` and `./`.
pub open spec fn dest_display(dest: Seq<char>, dir: Seq<char>) -> Seq<char> {
    if dir.len() <= dest.len() && dest.take(dir.len() as int) == dir {
        let t = strip_all_prefix(dest.skip(dir.len() as int), "/"@);
        if t.len() == 0 {
            "."@
        } else {
            "./"@ + strip_all_prefix(t, "./"@)
        }
    } else {
        dest
    }
}

/// A destination for display.
pub fn format_dest_path(dest_path: &str, manifest_dir: &str) -> (r: String)
    ensures
        r@ == dest_display(dest_path@, manifest_dir@),
{
    let d = chars_of(dest_path);
    let m = chars_of(manifest_dir);
    if !has_prefix(d.as_slice(), m.as_slice()) {
        return lit(dest_path);
    }
    let rest = slice_copy(d.as_slice(), m.len(), d.len());
    assert(rest@ =~= dest_path@.skip(manifest_dir@.len() as int));
    let t = trim_start_matches(rest.as_slice(), chars_of("/").as_slice());
    if t.len() == 0 {
        lit(".")
    } else {
        let cleaned = trim_start_matches(t.as_slice(), chars_of("./").as_slice());
        let c = string_of(cleaned.as_slice());
        cat2("./", c.as_str())
    }
}

/// The badge and label of a status.
pub open spec fn status_text(s: SyncStatus) -> (Seq<char>, Seq<char>) {
    match s {
        SyncStatus::Synced => ("✓"@, "[synced]"@),
        SyncStatus::Copied => ("✓"@, "[copied]"@),
        SyncStatus::Current => ("·"@, "[current]"@),
        SyncStatus::Upgradable => ("↑"@, "[upgrade available]"@),
        SyncStatus::Warning => ("!"@, "[warning]"@),
        SyncStatus::Error => ("✗"@, "[error]"@),
    }
}

/// The badge and label of a status.
pub fn status_badge(s: SyncStatus) -> (r: (&'static str, &'static str))
    ensures
        (r.0@, r.1@) == status_text(s),
{
    match s {
        SyncStatus::Synced => ("✓", "[synced]"),
        SyncStatus::Copied => ("✓", "[copied]"),
        SyncStatus::Current => ("·", "[current]"),
        SyncStatus::Upgradable => ("↑", "[upgrade available]"),
        SyncStatus::Warning => ("!", "[warning]"),
        SyncStatus::Error => ("✗", "[error]"),
    }
}

/// The status an install result is shown with: warnings first, then an
/// unchanged entry (upgradable when a newer commit exists), then symlinked
/// or copied.
pub open spec fn status_of(r: InstallResult) -> SyncStatus {
    if r.warnings@.len() > 0 {
        SyncStatus::Warning
    } else if r.skipped_no_change && r.upgrade_available is Some {
        SyncStatus::Upgradable
    } else if r.skipped_no_change {
        SyncStatus::Current
    } else if r.was_symlink {
        SyncStatus::Synced
    } else {
        SyncStatus::Copied
    }
}

/// The first at most 8 bytes of a commit id.
pub open spec fn short_sha(s: Seq<char>) -> Seq<char> {
    let n = if encode_utf8(s).len() < 8 {
        encode_utf8(s).len() as int
    } else {
        8
    };
    decode_utf8(encode_utf8(s).subrange(0, n))
}

/// Whether cutting a commit id to 8 bytes falls on a character boundary.
pub open spec fn short_sha_fits(s: Seq<char>) -> bool {
    encode_utf8(s).len() > 8 ==> is_char_boundary(encode_utf8(s), 8)
}

/// Whether a commit id can be cut to 8 bytes without splitting a character.
pub fn short_commit_fits(s: &str) -> (b: bool)
    ensures
        b == short_sha_fits(s@),
{
    s.as_bytes().len() <= 8 || s.is_char_boundary(8)
}

/// The first at most 8 bytes of a commit id.
pub fn short_commit(s: &str) -> (r: String)
    requires
        short_sha_fits(s@),
    ensures
        r@ == short_sha(s@),
{
    let n = s.as_bytes().len();
    if n <= 8 {
        proof {
            vstd::utf8::encode_utf8_decode_utf8(s@);
            assert(encode_utf8(s@).subrange(0, n as int) =~= encode_utf8(s@));
        }
        return lit(s);
    }
    let (head, _tail) = s.split_at(8);
    proof {
        vstd::utf8::encode_utf8_decode_utf8(head@);
        assert(head.spec_bytes() =~= encode_utf8(s@).subrange(0, 8));
    }
    lit(head)
}

/// The message shown below an entry: its warnings joined with `, `, or, when
/// a newer commit exists, the short current and available commits.
pub open spec fn message_of(r: InstallResult) -> Option<Seq<char>> {
    match r.upgrade_available {
        Some(u) => Some(short_sha(u.current_commit@) + " → "@ + short_sha(u.available_commit@)),
        None => if r.warnings@.len() > 0 {
            Some(join_with(string_views(r.warnings@), ", "@))
        } else {
            None
        },
    }
}

/// The report line of an install result.
pub fn display_item(r: &InstallResult) -> (item: SyncDisplayItem)
    requires
        r.upgrade_available matches Some(u) ==> short_sha_fits(u.current_commit@) && short_sha_fits(
            u.available_commit@,
        ),
    ensures
        item.id@ == r.id@,
        item.dest_path@ == r.dest_path@,
        item.status == status_of(*r),
        match message_of(*r) {
            Some(m) => item.message matches Some(x) && x@ == m,
            None => item.message is None,
        },
{
    let status = if r.warnings.len() > 0 {
        SyncStatus::Warning
    } else if r.skipped_no_change && r.upgrade_available.is_some() {
        SyncStatus::Upgradable
    } else if r.skipped_no_change {
        SyncStatus::Current
    } else if r.was_symlink {
        SyncStatus::Synced
    } else {
        SyncStatus::Copied
    };
    let mut item = SyncDisplayItem::new(r.id.clone(), r.dest_path.clone(), status);
    if r.warnings.len() > 0 {
        let mut parts: Vec<Vec<char>> = Vec::new();
        let mut i: usize = 0;
        while i < r.warnings.len()
            invariant
                i <= r.warnings@.len(),
                views(parts@) == string_views(r.warnings@).take(i as int),
            decreases r.warnings@.len() - i,
        {
            let ghost before = views(parts@);
            parts.push(chars_of(r.warnings[i].as_str()));
            assert(views(parts@) =~= before.push(r.warnings@[i as int]@));
            assert(string_views(r.warnings@).take(i + 1) =~= string_views(r.warnings@).take(
                i as int,
            ).push(r.warnings@[i as int]@));
            i = i + 1;
        }
        assert(string_views(r.warnings@).take(r.warnings@.len() as int) =~= string_views(
            r.warnings@,
        ));
        assert(views(parts@).skip(0) =~= views(parts@));
        let joined = join_from(&parts, 0, chars_of(", ").as_slice());
        item = item.with_message(string_of(joined.as_slice()));
    }
    if let Some(u) = &r.upgrade_available {
        let cur = short_commit(u.current_commit.as_str());
        let avail = short_commit(u.available_commit.as_str());
        item = item.with_message(cat3(cur.as_str(), " → ", avail.as_str()));
    }
    item
}

/// How many items have a status.
pub open spec fn count_of(items: Seq<SyncDisplayItem>, s: SyncStatus) -> nat
    decreases items.len(),
{
    if items.len() == 0 {
        0
    } else {
        count_of(items.drop_last(), s) + if items.last().status == s {
            1nat
        } else {
            0nat
        }
    }
}

/// How many items have a status.
pub fn count_status(items: &Vec<SyncDisplayItem>, s: SyncStatus) -> (r: usize)
    ensures
        r == count_of(items@, s),
{
    let mut n: usize = 0;
    let mut i: usize = 0;
    while i < items.len()
        invariant
            i <= items@.len(),
            n == count_of(items@.take(i as int), s),
            n <= i,
        decreases items@.len() - i,
    {
        assert(items@.take(i + 1).drop_last() =~= items@.take(i as int));
        if items[i].status == s {
            n = n + 1;
        }
        i = i + 1;
    }
    assert(items@.take(items@.len() as int) =~= items@);
    n
}

/// The emphasis a part of the summary is shown with.
#[derive(Debug, Clone, Copy, PartialEq, Eq, Structural)]
pub enum Tone {
    Good,
    Muted,
    Upgrade,
    Caution,
}

/// One part of the summary line: a count and what it counts.
#[derive(Debug, Clone)]
pub struct SummaryPart {
    pub count: usize,
    pub label: String,
    pub tone: Tone,
}

/// The installed part of the summary (synced and copied together; `would
/// sync` in a dry run).
pub open spec fn installed_part(installed: int, dry_run: bool) -> Seq<(int, Seq<char>, Tone)> {
    if installed > 0 {
        seq![(installed, if dry_run { "would sync"@ } else { "synced"@ }, Tone::Good)]
    } else {
        Seq::empty()
    }
}

/// A counted part of the summary, with its label for one and for several.
pub open spec fn counted_part(n: int, one: Seq<char>, many: Seq<char>, tone: Tone) -> Seq<
    (int, Seq<char>, Tone),
> {
    if n > 0 {
        seq![(n, if n == 1 { one } else { many }, tone)]
    } else {
        Seq::empty()
    }
}

/// The parts of the summary line, in order: installed, current, upgrades,
/// warnings and cleaned orphans, each only when its count is not zero.
pub open spec fn summary_spec(
    synced: int,
    copied: int,
    current: int,
    upgradable: int,
    warnings: int,
    orphans: int,
    dry_run: bool,
) -> Seq<(int, Seq<char>, Tone)> {
    installed_part(synced + copied, dry_run) + counted_part(current, "current"@, "current"@, Tone::Muted)
        + counted_part(upgradable, "upgrade available"@, "upgrades available"@, Tone::Upgrade)
        + counted_part(warnings, "warning"@, "warnings"@, Tone::Caution) + counted_part(
        orphans,
        "orphans cleaned"@,
        "orphans cleaned"@,
        Tone::Muted,
    )
}

/// The content of summary parts.
pub open spec fn part_views(s: Seq<SummaryPart>) -> Seq<(int, Seq<char>, Tone)> {
    s.map_values(|p: SummaryPart| (p.count as int, p.label@, p.tone))
}

fn add_counted(parts: &mut Vec<SummaryPart>, n: usize, one: &str, many: &str, tone: Tone)
    ensures
        part_views(final(parts)@) == part_views(old(parts)@) + counted_part(n as int, one@, many@, tone),
{
    if n > 0 {
        let ghost before = part_views(parts@);
        let label = if n == 1 {
            one
        } else {
            many
        };
        parts.push(SummaryPart { count: n, label: lit(label), tone });
        assert(part_views(parts@) =~= before + counted_part(n as int, one@, many@, tone));
    } else {
        assert(part_views(parts@) =~= part_views(parts@) + counted_part(n as int, one@, many@, tone));
    }
}

/// The parts of the summary line after a sync.
pub fn summary_parts(
    synced: usize,
    copied: usize,
    current: usize,
    upgradable: usize,
    warnings: usize,
    orphans: usize,
    dry_run: bool,
) -> (r: Vec<SummaryPart>)
    requires
        synced + copied <= usize::MAX,
    ensures
        part_views(r@) == summary_spec(
            synced as int,
            copied as int,
            current as int,
            upgradable as int,
            warnings as int,
            orphans as int,
            dry_run,
        ),
{
    let mut parts: Vec<SummaryPart> = Vec::new();
    let installed = synced + copied;
    if installed > 0 {
        parts.push(
            SummaryPart {
                count: installed,
                label: lit(
                    if dry_run {
                        "would sync"
                    } else {
                        "synced"
                    },
                ),
                tone: Tone::Good,
            },
        );
    }
    assert(part_views(parts@) =~= installed_part(installed as int, dry_run));
    add_counted(&mut parts, current, "current", "current", Tone::Muted);
    add_counted(&mut parts, upgradable, "upgrade available", "upgrades available", Tone::Upgrade);
    add_counted(&mut parts, warnings, "warning", "warnings", Tone::Caution);
    add_counted(&mut parts, orphans, "orphans cleaned", "orphans cleaned", Tone::Muted);
    parts
}

} // verus!
