//! Orphaned paths: what an entry left at its old destination after its
//! destination changed.
use crate::catalog::dest_of;
use crate::error::{lit, string_views};
use crate::install::{DestState, InstallOptions};
use crate::lockfile::Lockfile;
use crate::manifest::Entry;
use crate::paths::{join, join_paths, path_has_prefix, path_starts_with};
use crate::text::{
    chars_of, join_from, join_with, lemma_join_append, lemma_join_split_on, lemma_split_on_nonempty,
    split_chars, split_on, str_eq, string_of, views,
};
use vstd::prelude::*;

verus! {

/// An old destination left behind when an entry's destination changed.
#[derive(Debug, Clone)]
pub struct OrphanedPath {
    pub entry_id: String,
    pub old_dest: String,
    pub new_dest: String,
}

/// Whether one path lies within the other, component by component.
pub open spec fn overlap(a: Seq<char>, b: Seq<char>) -> bool {
    path_starts_with(a, b) || path_starts_with(b, a)
}

/// Whether one path lies within the other (paths as given; callers compare
/// canonical paths where they can).
pub fn paths_overlap(path1: &str, path2: &str) -> (r: bool)
    ensures
        r == overlap(path1@, path2@),
{
    path_has_prefix(path1, path2) || path_has_prefix(path2, path1)
}

/// The entries whose lockfile destination is known, with the old and new
/// destinations under the manifest directory, in manifest order.
pub open spec fn candidates_of(
    es: Seq<Entry>,
    lockfile: Lockfile,
    dir: Seq<char>,
    news: Seq<Seq<char>>,
) -> Seq<(Seq<char>, Seq<char>, Seq<char>)>
    decreases es.len(),
{
    if es.len() == 0 {
        Seq::empty()
    } else {
        let n = es.len() - 1;
        let rest = candidates_of(es.drop_last(), lockfile, dir, news);
        let m = lockfile.entries.view();
        if m.dom().contains(es[n].id@) {
            rest.push((es[n].id@, join(dir, m[es[n].id@].dest@), join(dir, news[n])))
        } else {
            rest
        }
    }
}

/// The content of orphan records.
pub open spec fn orphan_views(s: Seq<OrphanedPath>) -> Seq<(Seq<char>, Seq<char>, Seq<char>)> {
    s.map_values(|o: OrphanedPath| (o.entry_id@, o.old_dest@, o.new_dest@))
}

/// For each entry the lockfile knows, its old destination (from the
/// lockfile) and its new one, both under the manifest directory: the paths
/// to compare for orphans.
pub fn orphan_candidates(entries: &Vec<Entry>, lockfile: &Lockfile, manifest_dir: &str) -> (r: Vec<
    OrphanedPath,
>)
    ensures
        exists|news: Seq<Seq<char>>|
            news.len() == entries@.len() && (forall|i: int|
                0 <= i < entries@.len() ==> dest_of(entries@[i], #[trigger] news[i]))
                && orphan_views(r@) == candidates_of(entries@, *lockfile, manifest_dir@, news),
{
    let mut r: Vec<OrphanedPath> = Vec::new();
    let ghost mut news: Seq<Seq<char>> = Seq::empty();
    let mut i: usize = 0;
    while i < entries.len()
        invariant
            i <= entries@.len(),
            news.len() == i,
            forall|k: int| 0 <= k < i ==> dest_of(entries@[k], #[trigger] news[k]),
            orphan_views(r@) == candidates_of(entries@.take(i as int), *lockfile, manifest_dir@, news),
        decreases entries@.len() - i,
    {
        let e = &entries[i];
        let nd = e.destination();
        let ghost new_news = news.push(nd@);
        proof {
            assert(dest_of(entries@[i as int], nd@));
            lemma_candidates_prefix(entries@.take(i as int), *lockfile, manifest_dir@, news, new_news);
            assert(entries@.take(i + 1).drop_last() =~= entries@.take(i as int));
        }
        match lockfile.entries.get(e.id.as_str()) {
            Some(locked) => {
                let old = join_paths(manifest_dir, locked.dest.as_str());
                let new = join_paths(manifest_dir, nd.as_str());
                let ghost before = orphan_views(r@);
                r.push(OrphanedPath { entry_id: e.id.clone(), old_dest: old, new_dest: new });
                assert(orphan_views(r@) =~= before.push((e.id@, old@, new@)));
            },
            None => {},
        }
        proof {
            news = new_news;
        }
        i = i + 1;
    }
    assert(entries@.take(entries@.len() as int) =~= entries@);
    r
}

proof fn lemma_candidates_prefix(
    es: Seq<Entry>,
    lockfile: Lockfile,
    dir: Seq<char>,
    a: Seq<Seq<char>>,
    b: Seq<Seq<char>>,
)
    requires
        es.len() <= a.len(),
        es.len() <= b.len(),
        forall|k: int| 0 <= k < es.len() ==> a[k] == b[k],
    ensures
        candidates_of(es, lockfile, dir, a) == candidates_of(es, lockfile, dir, b),
    decreases es.len(),
{
    if es.len() > 0 {
        lemma_candidates_prefix(es.drop_last(), lockfile, dir, a, b);
    }
}

/// Whether a candidate is an orphan: its destinations differ (as compared),
/// something is still at the old one, and neither lies within the other.
pub open spec fn is_orphan_of(old_cmp: Seq<char>, new_cmp: Seq<char>, old_exists: bool) -> bool {
    old_cmp != new_cmp && old_exists && !overlap(old_cmp, new_cmp)
}

/// What is known of a candidate's paths on disk: both destinations in their
/// compared (canonical where possible) form, and whether anything is at the
/// old one.
pub type Probe = (String, String, bool);

/// The candidates that are orphans, in order.
pub open spec fn orphans_of(c: Seq<OrphanedPath>, probes: Seq<Probe>) -> Seq<OrphanedPath>
    decreases c.len(),
{
    if c.len() == 0 {
        Seq::empty()
    } else {
        let n = c.len() - 1;
        let rest = orphans_of(c.drop_last(), probes);
        if is_orphan_of(probes[n].0@, probes[n].1@, probes[n].2) {
            rest.push(c[n])
        } else {
            rest
        }
    }
}

/// Overlap does not depend on which path comes first.
pub proof fn law_overlap_symmetric(a: Seq<char>, b: Seq<char>)
    ensures
        overlap(a, b) == overlap(b, a),
{
}

/// Whether `x` is a candidate whose compared destinations differ, with
/// something at the old one, the two not overlapping.
pub open spec fn removable_candidate(c: Seq<OrphanedPath>, probes: Seq<Probe>, x: OrphanedPath) -> bool {
    exists|i: int|
        0 <= i < c.len() && #[trigger] c[i] == x && probes[i].0@ != probes[i].1@ && probes[i].2
            && !overlap(probes[i].0@, probes[i].1@)
}

/// Only candidates are orphans, and an orphan is never a path that lies
/// within its new destination or holds it: its compared destinations differ,
/// something is at the old one, and they do not overlap.
pub proof fn law_orphans_safe_to_remove(c: Seq<OrphanedPath>, probes: Seq<Probe>)
    requires
        probes.len() == c.len(),
    ensures
        orphans_of(c, probes).len() <= c.len(),
        forall|k: int|
            0 <= k < orphans_of(c, probes).len() ==> removable_candidate(
                c,
                probes,
                #[trigger] orphans_of(c, probes)[k],
            ),
    decreases c.len(),
{
    if c.len() > 0 {
        let n = c.len() - 1;
        let c0 = c.drop_last();
        let p0 = probes.drop_last();
        law_orphans_safe_to_remove(c0, p0);
        let rest = orphans_of(c0, p0);
        lemma_orphans_prefix(c0, probes, p0);
        let o = orphans_of(c, probes);
        assert forall|k: int| 0 <= k < o.len() implies removable_candidate(c, probes, #[trigger] o[k]) by {
            if k < rest.len() {
                assert(o[k] == rest[k]);
                assert(removable_candidate(c0, p0, rest[k]));
                let i = choose|i: int|
                    0 <= i < c0.len() && #[trigger] c0[i] == rest[k] && p0[i].0@ != p0[i].1@ && p0[i].2
                        && !overlap(p0[i].0@, p0[i].1@);
                assert(c[i] == c0[i] && probes[i] == p0[i]);
            } else {
                assert(o[k] == c[n]);
                assert(is_orphan_of(probes[n].0@, probes[n].1@, probes[n].2));
                assert(c[n] == o[k]);
            }
        }
    }
}

/// The positions among the first `c.len()` candidates whose probes make them
/// orphans, in increasing order, matched to the orphans found.
proof fn orphan_positions(c: Seq<OrphanedPath>, probes: Seq<Probe>) -> (idx: Seq<int>)
    requires
        c.len() <= probes.len(),
    ensures
        idx.len() == orphans_of(c, probes).len(),
        forall|k: int|
            0 <= k < idx.len() ==> 0 <= #[trigger] idx[k] < c.len() && orphans_of(c, probes)[k]
                == c[idx[k]] && probes[idx[k]].0@ != probes[idx[k]].1@ && probes[idx[k]].2
                && !overlap(probes[idx[k]].0@, probes[idx[k]].1@),
        forall|k: int, l: int| 0 <= k < l < idx.len() ==> #[trigger] idx[k] < #[trigger] idx[l],
        forall|i: int|
            0 <= i < c.len() && probes[i].0@ != probes[i].1@ && probes[i].2 && !overlap(
                probes[i].0@,
                probes[i].1@,
            ) ==> exists|k: int| 0 <= k < idx.len() && #[trigger] idx[k] == i,
    decreases c.len(),
{
    if c.len() == 0 {
        Seq::empty()
    } else {
        let n = c.len() - 1;
        let prev = orphan_positions(c.drop_last(), probes);
        let o = orphans_of(c, probes);
        let q = orphans_of(c.drop_last(), probes);
        if is_orphan_of(probes[n].0@, probes[n].1@, probes[n].2) {
            let idx = prev.push(n);
            assert forall|k: int| 0 <= k < idx.len() implies 0 <= #[trigger] idx[k] < c.len() && o[k]
                == c[idx[k]] && probes[idx[k]].0@ != probes[idx[k]].1@ && probes[idx[k]].2 && !overlap(
                probes[idx[k]].0@,
                probes[idx[k]].1@,
            ) by {
                if k < prev.len() {
                    assert(idx[k] == prev[k] && o[k] == q[k]);
                    assert(c.drop_last()[prev[k]] == c[prev[k]]);
                }
            }
            assert forall|i: int|
                0 <= i < c.len() && probes[i].0@ != probes[i].1@ && probes[i].2 && !overlap(
                    probes[i].0@,
                    probes[i].1@,
                ) implies exists|k: int| 0 <= k < idx.len() && #[trigger] idx[k] == i by {
                if i < n {
                    let k = choose|k: int| 0 <= k < prev.len() && #[trigger] prev[k] == i;
                    assert(idx[k] == i);
                } else {
                    assert(idx[prev.len() as int] == i);
                }
            }
            idx
        } else {
            assert forall|k: int| 0 <= k < prev.len() implies 0 <= #[trigger] prev[k] < c.len() && o[k]
                == c[prev[k]] && probes[prev[k]].0@ != probes[prev[k]].1@ && probes[prev[k]].2
                && !overlap(probes[prev[k]].0@, probes[prev[k]].1@) by {
                assert(c.drop_last()[prev[k]] == c[prev[k]]);
            }
            prev
        }
    }
}

/// Every orphan is reported, and nothing else: the orphans found are exactly
/// the candidates whose compared destinations differ, whose old destination
/// is on disk and whose two destinations do not overlap, in candidate order.
/// The returned positions say which candidate each reported orphan is.
pub proof fn law_orphans_complete(c: Seq<OrphanedPath>, probes: Seq<Probe>) -> (idx: Seq<int>)
    requires
        probes.len() == c.len(),
    ensures
        idx.len() == orphans_of(c, probes).len(),
        forall|k: int|
            0 <= k < idx.len() ==> 0 <= #[trigger] idx[k] < c.len() && orphans_of(c, probes)[k]
                == c[idx[k]] && probes[idx[k]].0@ != probes[idx[k]].1@ && probes[idx[k]].2
                && !overlap(probes[idx[k]].0@, probes[idx[k]].1@),
        forall|k: int, l: int| 0 <= k < l < idx.len() ==> #[trigger] idx[k] < #[trigger] idx[l],
        forall|i: int|
            0 <= i < c.len() && probes[i].0@ != probes[i].1@ && probes[i].2 && !overlap(
                probes[i].0@,
                probes[i].1@,
            ) ==> exists|k: int| 0 <= k < idx.len() && #[trigger] idx[k] == i,
{
    orphan_positions(c, probes)
}

/// Which candidates are orphans depends only on their own probes.
proof fn lemma_orphans_prefix(c: Seq<OrphanedPath>, p: Seq<Probe>, q: Seq<Probe>)
    requires
        c.len() <= p.len(),
        c.len() <= q.len(),
        forall|i: int| 0 <= i < c.len() ==> p[i] == q[i],
    ensures
        orphans_of(c, p) == orphans_of(c, q),
    decreases c.len(),
{
    if c.len() > 0 {
        lemma_orphans_prefix(c.drop_last(), p, q);
    }
}

/// The orphans among the candidates, given what was found on disk for each.
pub fn detect_orphaned_paths(candidates: Vec<OrphanedPath>, probes: &Vec<Probe>) -> (r: Vec<
    OrphanedPath,
>)
    requires
        probes@.len() == candidates@.len(),
    ensures
        r@ == orphans_of(candidates@, probes@),
{
    let mut r: Vec<OrphanedPath> = Vec::new();
    let mut rest = candidates;
    let ghost all = rest@;
    let mut i: usize = 0;
    while i < probes.len()
        invariant
            i <= probes@.len(),
            probes@.len() == all.len(),
            rest@ == all.skip(i as int),
            r@ == orphans_of(all.take(i as int), probes@),
        decreases probes@.len() - i,
    {
        let ghost before = rest@;
        let c = rest.remove(0);
        assert(before[0] == all[i as int] && rest@ =~= all.skip(i + 1));
        assert(all.take(i + 1).drop_last() =~= all.take(i as int));
        let p = &probes[i];
        let differ = !str_eq(p.0.as_str(), p.1.as_str());
        if differ && p.2 && !paths_overlap(p.0.as_str(), p.1.as_str()) {
            r.push(c);
        }
        i = i + 1;
    }
    assert(all.take(all.len() as int) =~= all);
    r
}

/// The path parts that two paths share and where they differ, splitting at
/// every `/`: the common leading parts, the differing middles, and the common
/// trailing parts (never overlapping the leading ones).
pub open spec fn common_prefix(a: Seq<Seq<char>>, b: Seq<Seq<char>>) -> nat
    decreases a.len(),
{
    if a.len() == 0 || b.len() == 0 || a[0] != b[0] {
        0
    } else {
        1 + common_prefix(a.drop_first(), b.drop_first())
    }
}

/// How many trailing parts, from the `k`-th last on, the paths share while
/// the shared parts stay within the shorter path's length `m` minus the `p`
/// common leading parts.
pub open spec fn common_suffix_from(a: Seq<Seq<char>>, b: Seq<Seq<char>>, p: int, m: int, k: int) -> int
    decreases m - k,
{
    if k < m && k < a.len() && k < b.len() && a[a.len() - 1 - k] == b[b.len() - 1 - k] && p + k < m {
        common_suffix_from(a, b, p, m, k + 1)
    } else {
        k
    }
}

/// The shorter length.
pub open spec fn min_len(a: int, b: int) -> int {
    if a <= b {
        a
    } else {
        b
    }
}

proof fn lemma_common_prefix_bound(a: Seq<Seq<char>>, b: Seq<Seq<char>>)
    ensures
        common_prefix(a, b) <= a.len(),
        common_prefix(a, b) <= b.len(),
        forall|i: int| 0 <= i < common_prefix(a, b) ==> a[i] == b[i],
        common_prefix(a, b) < a.len() && common_prefix(a, b) < b.len() ==> a[common_prefix(a, b) as int]
            != b[common_prefix(a, b) as int],
    decreases a.len(),
{
    if a.len() > 0 && b.len() > 0 && a[0] == b[0] {
        lemma_common_prefix_bound(a.drop_first(), b.drop_first());
        assert forall|i: int| 0 <= i < common_prefix(a, b) implies a[i] == b[i] by {
            if i > 0 {
                assert(a[i] == a.drop_first()[i - 1]);
                assert(b[i] == b.drop_first()[i - 1]);
            }
        }
    }
}

proof fn lemma_common_suffix_bound(a: Seq<Seq<char>>, b: Seq<Seq<char>>, p: int, m: int, k: int)
    requires
        0 <= p,
        0 <= k,
        p + k <= m,
        m <= a.len(),
        m <= b.len(),
    ensures
        k <= common_suffix_from(a, b, p, m, k),
        p + common_suffix_from(a, b, p, m, k) <= m,
    decreases m - k,
{
    if k < m && k < a.len() && k < b.len() && a[a.len() - 1 - k] == b[b.len() - 1 - k] && p + k < m {
        lemma_common_suffix_bound(a, b, p, m, k + 1);
    }
}

/// How many leading parts the two part lists share, and how many trailing
/// parts they share beyond those, counted as `path_display_of` does.
fn diff_bounds(a: &Vec<Vec<char>>, b: &Vec<Vec<char>>) -> (r: (usize, usize))
    ensures
        r.0 as int == common_prefix(views(a@), views(b@)),
        r.1 as int == common_suffix_from(
            views(a@),
            views(b@),
            r.0 as int,
            min_len(a@.len() as int, b@.len() as int),
            0,
        ),
        r.0 + r.1 <= a@.len(),
        r.0 + r.1 <= b@.len(),
{
    let ghost av = views(a@);
    let ghost bv = views(b@);
    proof {
        lemma_common_prefix_bound(av, bv);
    }
    let la = a.len();
    let lb = b.len();
    let m = if la <= lb {
        la
    } else {
        lb
    };
    let mut p: usize = 0;
    while p < la && p < lb && crate::text::chars_eq(a[p].as_slice(), b[p].as_slice())
        invariant
            la == a@.len(),
            lb == b@.len(),
            av == views(a@),
            bv == views(b@),
            p <= common_prefix(av, bv),
        decreases la - p,
    {
        assert(av[p as int] == a@[p as int]@ && bv[p as int] == b@[p as int]@);
        proof {
            lemma_common_prefix_at(av, bv, p as int);
        }
        p = p + 1;
    }
    proof {
        if p < la && p < lb {
            assert(av[p as int] == a@[p as int]@ && bv[p as int] == b@[p as int]@);
        }
        lemma_common_prefix_exact(av, bv, p as int);
    }
    let mut s: usize = 0;
    proof {
        lemma_common_suffix_bound(av, bv, p as int, m as int, 0);
    }
    while s < m && s < la && s < lb && p + s < m && crate::text::chars_eq(
        a[la - 1 - s].as_slice(),
        b[lb - 1 - s].as_slice(),
    )
        invariant
            la == a@.len(),
            lb == b@.len(),
            av == views(a@),
            bv == views(b@),
            m as int == min_len(la as int, lb as int),
            p as int == common_prefix(av, bv),
            p <= m,
            p + s <= m,
            common_suffix_from(av, bv, p as int, m as int, s as int) == common_suffix_from(
                av,
                bv,
                p as int,
                m as int,
                0,
            ),
        decreases m - s,
    {
        assert(av[la - 1 - s] == a@[la - 1 - s]@ && bv[lb - 1 - s] == b@[lb - 1 - s]@);
        s = s + 1;
    }
    proof {
        if s < m && s < la && s < lb && p + s < m {
            assert(av[la - 1 - s] == a@[la - 1 - s]@ && bv[lb - 1 - s] == b@[lb - 1 - s]@);
        }
    }
    (p, s)
}

/// The pieces of a displayed path as plain values: text, and whether it is
/// highlighted.
pub open spec fn segment_views(v: Seq<(String, bool)>) -> Seq<(Seq<char>, bool)> {
    v.map_values(|x: (String, bool)| (x.0@, x.1))
}

/// The text of the pieces, put together.
pub open spec fn segments_text(v: Seq<(Seq<char>, bool)>) -> Seq<char>
    decreases v.len(),
{
    if v.len() == 0 {
        Seq::empty()
    } else {
        segments_text(v.drop_last()) + v.last().0
    }
}

/// The display of a path split into parts `a`, of which the first `p` and
/// the last `s` are shared with the other path: the shared leading parts,
/// the differing middle (highlighted), and the shared trailing parts, each
/// group present only if it has parts, with a `/` between groups.
pub open spec fn display_segments(a: Seq<Seq<char>>, p: int, s: int) -> Seq<(Seq<char>, bool)> {
    let pre = a.take(p);
    let mid = a.subrange(p, a.len() - s);
    let suf = a.skip(a.len() - s);
    let first: Seq<(Seq<char>, bool)> = if pre.len() > 0 {
        seq![(join_with(pre, "/"@), false)]
    } else {
        Seq::empty()
    };
    let second: Seq<(Seq<char>, bool)> = if mid.len() > 0 {
        (if pre.len() > 0 {
            seq![("/"@, false)]
        } else {
            Seq::empty()
        }) + seq![(join_with(mid, "/"@), true)]
    } else {
        Seq::empty()
    };
    let third: Seq<(Seq<char>, bool)> = if suf.len() > 0 {
        (if pre.len() > 0 || mid.len() > 0 {
            seq![("/"@, false)]
        } else {
            Seq::empty()
        }) + seq![(join_with(suf, "/"@), false)]
    } else {
        Seq::empty()
    };
    first + second + third
}

/// How an orphaned path and its new destination are shown: each split at
/// `/`, the parts they share at the front and at the back plain, the parts in
/// between highlighted.
pub open spec fn path_display_of(old: Seq<char>, new: Seq<char>) -> (
    Seq<(Seq<char>, bool)>,
    Seq<(Seq<char>, bool)>,
) {
    let a = split_on(old, '/');
    let b = split_on(new, '/');
    let p = common_prefix(a, b) as int;
    let s = common_suffix_from(a, b, p, min_len(a.len() as int, b.len() as int), 0);
    (display_segments(a, p, s), display_segments(b, p, s))
}

proof fn lemma_segments_text_append(x: Seq<(Seq<char>, bool)>, y: Seq<(Seq<char>, bool)>)
    ensures
        segments_text(x + y) == segments_text(x) + segments_text(y),
    decreases y.len(),
{
    if y.len() == 0 {
        assert(x + y =~= x);
    } else {
        assert((x + y).drop_last() =~= x + y.drop_last());
        lemma_segments_text_append(x, y.drop_last());
        assert(segments_text(x + y) =~= segments_text(x) + segments_text(y));
    }
}

proof fn lemma_segments_text_small(x: (Seq<char>, bool), y: (Seq<char>, bool))
    ensures
        segments_text(seq![x]) == x.0,
        segments_text(seq![x, y]) == x.0 + y.0,
{
    let e = Seq::<(Seq<char>, bool)>::empty();
    assert(segments_text(e) =~= Seq::<char>::empty());
    assert(seq![x].drop_last() =~= e);
    assert(seq![x].last() == x);
    assert(segments_text(seq![x]) =~= x.0);
    assert(seq![x, y].drop_last() =~= seq![x]);
    assert(seq![x, y].last() == y);
}

/// The pieces of a displayed path put together give the parts joined with `/`.
proof fn lemma_display_text(a: Seq<Seq<char>>, p: int, s: int)
    requires
        a.len() > 0,
        0 <= p,
        0 <= s,
        p + s <= a.len(),
    ensures
        segments_text(display_segments(a, p, s)) == join_with(a, "/"@),
{
    let sep = "/"@;
    let pre = a.take(p);
    let mid = a.subrange(p, a.len() - s);
    let suf = a.skip(a.len() - s);
    let e = Seq::<(Seq<char>, bool)>::empty();
    let d = display_segments(a, p, s);
    let slash = (sep, false);
    lemma_segments_text_small((join_with(pre, sep), false), slash);
    lemma_segments_text_small((join_with(mid, sep), true), slash);
    lemma_segments_text_small((join_with(suf, sep), false), slash);
    lemma_segments_text_small(slash, (join_with(mid, sep), true));
    lemma_segments_text_small(slash, (join_with(suf, sep), false));
    assert(a =~= pre + mid + suf);
    let first: Seq<(Seq<char>, bool)> = if pre.len() > 0 {
        seq![(join_with(pre, sep), false)]
    } else {
        e
    };
    let second: Seq<(Seq<char>, bool)> = if mid.len() > 0 {
        if pre.len() > 0 {
            seq![slash, (join_with(mid, sep), true)]
        } else {
            seq![(join_with(mid, sep), true)]
        }
    } else {
        e
    };
    let third: Seq<(Seq<char>, bool)> = if suf.len() > 0 {
        if pre.len() > 0 || mid.len() > 0 {
            seq![slash, (join_with(suf, sep), false)]
        } else {
            seq![(join_with(suf, sep), false)]
        }
    } else {
        e
    };
    assert(d =~= first + second + third);
    lemma_segments_text_append(first + second, third);
    lemma_segments_text_append(first, second);
    assert(segments_text(e) == Seq::<char>::empty());
    if pre.len() > 0 && mid.len() > 0 {
        lemma_join_append(pre, mid, sep);
    }
    if pre.len() > 0 && mid.len() > 0 && suf.len() > 0 {
        lemma_join_append(pre + mid, suf, sep);
    }
    if pre.len() > 0 && mid.len() == 0 && suf.len() > 0 {
        assert(pre + mid =~= pre);
        lemma_join_append(pre, suf, sep);
    }
    if pre.len() == 0 && mid.len() > 0 && suf.len() > 0 {
        assert(pre + mid =~= mid);
        lemma_join_append(mid, suf, sep);
    }
    if suf.len() == 0 {
        assert(pre + mid + suf =~= pre + mid);
    }
    if pre.len() == 0 {
        assert(pre + mid =~= mid);
    }
    if mid.len() == 0 {
        assert(pre + mid =~= pre);
    }
    assert(segments_text(d) =~= join_with(a, sep));
}

/// Showing an orphaned path beside its new destination changes neither: the
/// pieces of each display, put together, give back the path as it was.
pub proof fn law_display_rebuilds_paths(old: Seq<char>, new: Seq<char>)
    ensures
        segments_text(path_display_of(old, new).0) == old,
        segments_text(path_display_of(old, new).1) == new,
{
    reveal_strlit("/");
    let a = split_on(old, '/');
    let b = split_on(new, '/');
    lemma_split_on_nonempty(old, '/');
    lemma_split_on_nonempty(new, '/');
    lemma_common_prefix_bound(a, b);
    let p = common_prefix(a, b) as int;
    let m = min_len(a.len() as int, b.len() as int);
    lemma_common_suffix_bound(a, b, p, m, 0);
    let s = common_suffix_from(a, b, p, m, 0);
    lemma_display_text(a, p, s);
    lemma_display_text(b, p, s);
    lemma_join_split_on(old, '/');
    lemma_join_split_on(new, '/');
    assert("/"@ =~= seq!['/']);
}

/// The pieces showing one path, from its parts and the shared counts.
fn display_pieces(a: &Vec<Vec<char>>, p: usize, s: usize) -> (r: Vec<(String, bool)>)
    requires
        p + s <= a@.len(),
    ensures
        segment_views(r@) == display_segments(views(a@), p as int, s as int),
{
    let ghost av = views(a@);
    let la = a.len();
    let mut r: Vec<(String, bool)> = Vec::new();
    let has_pre = p > 0;
    let has_mid = la - s > p;
    if has_pre {
        r.push((join_range(a, 0, p), false));
    }
    if has_mid {
        if has_pre {
            r.push((lit("/"), false));
        }
        r.push((join_range(a, p, la - s), true));
    }
    if s > 0 {
        if has_pre || has_mid {
            r.push((lit("/"), false));
        }
        r.push((join_range(a, la - s, la), false));
    }
    proof {
        assert(av.subrange(0, p as int) =~= av.take(p as int));
        assert(av.subrange(la - s, la as int) =~= av.skip(la - s));
        assert(segment_views(r@) =~= display_segments(av, p as int, s as int));
    }
    r
}

/// How an orphaned path and its new destination are shown, piece by piece;
/// each display put together gives the path back unchanged.
pub fn path_display(old: &str, new: &str) -> (r: (Vec<(String, bool)>, Vec<(String, bool)>))
    ensures
        (segment_views(r.0@), segment_views(r.1@)) == path_display_of(old@, new@),
        segments_text(segment_views(r.0@)) == old@,
        segments_text(segment_views(r.1@)) == new@,
{
    let ov = chars_of(old);
    let nv = chars_of(new);
    let a = split_chars(ov.as_slice(), '/');
    let b = split_chars(nv.as_slice(), '/');
    let (p, s) = diff_bounds(&a, &b);
    let old_pieces = display_pieces(&a, p, s);
    let new_pieces = display_pieces(&b, p, s);
    proof {
        law_display_rebuilds_paths(old@, new@);
    }
    (old_pieces, new_pieces)
}

proof fn lemma_common_prefix_at(a: Seq<Seq<char>>, b: Seq<Seq<char>>, p: int)
    requires
        0 <= p < a.len(),
        p < b.len(),
        p <= common_prefix(a, b),
        a[p] == b[p],
    ensures
        p + 1 <= common_prefix(a, b),
    decreases p,
{
    if p > 0 {
        assert(a[0] == b[0]) by {
            lemma_common_prefix_bound(a, b);
        }
        assert(a.drop_first()[p - 1] == a[p] && b.drop_first()[p - 1] == b[p]);
        lemma_common_prefix_at(a.drop_first(), b.drop_first(), p - 1);
    }
}

proof fn lemma_common_prefix_exact(a: Seq<Seq<char>>, b: Seq<Seq<char>>, p: int)
    requires
        0 <= p <= common_prefix(a, b),
        p == a.len() || p == b.len() || a[p] != b[p],
    ensures
        p == common_prefix(a, b),
{
    lemma_common_prefix_bound(a, b);
    if p < common_prefix(a, b) {
        assert(a[p] == b[p]);
    }
}

/// The first `p` parts.
fn prefix_parts(a: &Vec<Vec<char>>, p: usize) -> (r: Vec<Vec<char>>)
    requires
        p <= a@.len(),
    ensures
        views(r@) == views(a@).take(p as int),
{
    let mut r: Vec<Vec<char>> = Vec::new();
    let mut i: usize = 0;
    while i < p
        invariant
            i <= p <= a@.len(),
            views(r@) == views(a@).take(i as int),
        decreases p - i,
    {
        let c = crate::text::slice_copy(a[i].as_slice(), 0, a[i].len());
        assert(c@ =~= a@[i as int]@);
        let ghost before = views(r@);
        r.push(c);
        assert(views(r@) =~= before.push(a@[i as int]@));
        assert(views(a@).take(i + 1) =~= views(a@).take(i as int).push(a@[i as int]@));
        i = i + 1;
    }
    r
}

/// Parts `from..to` joined with `/`.
fn join_range(a: &Vec<Vec<char>>, from: usize, to: usize) -> (r: String)
    requires
        from <= to <= a@.len(),
    ensures
        r@ == join_with(views(a@).subrange(from as int, to as int), "/"@),
{
    let parts = prefix_parts(a, to);
    assert(views(parts@).len() == parts@.len());
    let slash = chars_of("/");
    let j = join_from(&parts, from, slash.as_slice());
    assert(views(parts@).skip(from as int) =~= views(a@).subrange(from as int, to as int));
    string_of(j.as_slice())
}

/// What to do with the orphans found.
#[derive(Debug, Clone, Copy, PartialEq, Eq, Structural)]
pub enum CleanupAction {
    /// None found
    Nothing,
    /// Dry run: report only
    Report,
    /// Delete them
    Delete,
    /// Ask the user
    Ask,
    /// Keep them: no terminal to ask and `--yes` not given
    NeedConfirmation,
}

/// What to do with orphans found.
pub fn orphan_cleanup_action(count: usize, options: &InstallOptions, interactive: bool) -> (r:
    CleanupAction)
    ensures
        r == if count == 0 {
            CleanupAction::Nothing
        } else if options.dry_run {
            CleanupAction::Report
        } else if options.yes {
            CleanupAction::Delete
        } else if interactive {
            CleanupAction::Ask
        } else {
            CleanupAction::NeedConfirmation
        },
{
    if count == 0 {
        CleanupAction::Nothing
    } else if options.dry_run {
        CleanupAction::Report
    } else if options.yes {
        CleanupAction::Delete
    } else if interactive {
        CleanupAction::Ask
    } else {
        CleanupAction::NeedConfirmation
    }
}

/// How an orphan is removed.
#[derive(Debug, Clone, Copy, PartialEq, Eq, Structural)]
pub enum Removal {
    /// Remove the symlink
    Unlink,
    /// Back up the file, then remove it
    BackupFile,
    /// Remove the directory tree (it holds only symlinks)
    RemoveTree,
    /// Back up the directory, then remove it
    BackupTree,
    /// Nothing there to remove
    Nothing,
}

/// How an orphan is removed: symlinks and directories of symlinks go at
/// once, real files and directories are backed up first.
pub fn orphan_removal(state: DestState, managed: bool) -> (r: Removal)
    ensures
        r == if state.is_symlink {
            Removal::Unlink
        } else if state.is_file {
            Removal::BackupFile
        } else if state.is_dir {
            if managed {
                Removal::RemoveTree
            } else {
                Removal::BackupTree
            }
        } else {
            Removal::Nothing
        },
{
    if state.is_symlink {
        Removal::Unlink
    } else if state.is_file {
        Removal::BackupFile
    } else if state.is_dir {
        if managed {
            Removal::RemoveTree
        } else {
            Removal::BackupTree
        }
    } else {
        Removal::Nothing
    }
}

/// An item found in a directory.
#[derive(Debug)]
pub enum FsNode {
    /// A symbolic link
    Symlink,
    /// A regular file
    File,
    /// A directory and its items, `None` when it could not be read
    Dir(Option<Vec<FsNode>>),
    /// An item whose metadata could not be read
    Unknown,
}

/// Whether a directory's items are all symlinks, unreadable items or
/// directories of the same kind: then the tool made it.
pub open spec fn managed_items(items: Option<Vec<FsNode>>) -> bool
    decreases items, 0int,
{
    match items {
        Some(v) => all_managed(v@),
        None => false,
    }
}

pub open spec fn all_managed(s: Seq<FsNode>) -> bool
    decreases s, 1int,
{
    if s.len() == 0 {
        true
    } else {
        node_managed(s[0]) && all_managed(s.drop_first())
    }
}

pub open spec fn node_managed(n: FsNode) -> bool
    decreases n, 0int,
{
    match n {
        FsNode::Symlink => true,
        FsNode::Unknown => true,
        FsNode::File => false,
        FsNode::Dir(items) => managed_items(items),
    }
}

/// Whether a directory holds only symlinks (through any depth of
/// subdirectories), so that the tool made it.
pub fn is_aps_managed_directory(items: &Option<Vec<FsNode>>) -> (r: bool)
    ensures
        r == managed_items(*items),
    decreases items, 0int,
{
    match items {
        Some(v) => {
            assert(v@.skip(0) =~= v@);
            all_items_managed(v, 0)
        },
        None => false,
    }
}

fn all_items_managed(v: &Vec<FsNode>, from: usize) -> (r: bool)
    requires
        from <= v@.len(),
    ensures
        r == all_managed(v@.skip(from as int)),
    decreases v@, 1int, v@.len() - from,
{
    if from == v.len() {
        return true;
    }
    assert(v@.skip(from as int)[0] == v@[from as int]);
    assert(v@.skip(from as int).drop_first() =~= v@.skip(from + 1));
    let ok = match &v[from] {
        FsNode::Symlink => true,
        FsNode::Unknown => true,
        FsNode::File => false,
        FsNode::Dir(items) => is_aps_managed_directory(items),
    };
    assert(ok == node_managed(v@[from as int]));
    if !ok {
        return false;
    }
    all_items_managed(v, from + 1)
}

} // verus!
