//! Unix path operations on path text, following `std::path` on Unix:
//! `/` separates components, empty and `.` components inside a path are ignored,
//! and a path that starts with `/` is absolute.
use crate::text::{join_from, join_with, segments, segments_of, string_of, views};
use vstd::prelude::*;

verus! {

pub open spec fn is_absolute(p: Seq<char>) -> bool {
    p.len() > 0 && p[0] == '/'
}

/// Whether a relative path starts with a `.` component (`.` or `./...`).
pub open spec fn has_cur_dir(p: Seq<char>) -> bool {
    !is_absolute(p) && p.len() > 0 && p[0] == '.' && (p.len() == 1 || p[1] == '/')
}

/// Length of the part before the first ordinary component (root or leading `.`).
pub open spec fn body_start(p: Seq<char>) -> int {
    if is_absolute(p) || has_cur_dir(p) {
        1
    } else {
        0
    }
}

/// `a` joined with `b` (`Path::join`): `b` if it is absolute, else `a`, a
/// separator when `a` is not empty and does not end in one, and `b`.
pub open spec fn join(a: Seq<char>, b: Seq<char>) -> Seq<char> {
    if is_absolute(b) {
        b
    } else if a.len() > 0 && a.last() != '/' {
        a + "/"@ + b
    } else {
        a + b
    }
}

/// Position of the last `/` in `p[lo..hi]`.
pub open spec fn last_sep(p: Seq<char>, lo: int, hi: int) -> Option<int>
    decreases hi - lo,
{
    if hi <= lo {
        None
    } else if p[hi - 1] == '/' {
        Some(hi - 1)
    } else {
        last_sep(p, lo, hi - 1)
    }
}

/// Start of the component that ends at `hi`.
pub open spec fn comp_start(p: Seq<char>, lo: int, hi: int) -> int {
    match last_sep(p, lo, hi) {
        Some(j) => j + 1,
        None => lo,
    }
}

/// Where the text before the component ending at `hi` ends.
pub open spec fn comp_cut(p: Seq<char>, lo: int, hi: int) -> int {
    match last_sep(p, lo, hi) {
        Some(j) => j,
        None => lo,
    }
}

/// Whether the component `p[a..b]` is ignored (empty or `.`).
pub open spec fn ignored(p: Seq<char>, a: int, b: int) -> bool {
    a >= b || (b == a + 1 && p[a] == '.')
}

/// `hi` moved back over trailing empty and `.` components, not below `lo`.
pub open spec fn trim_back(p: Seq<char>, lo: int, hi: int) -> int
    decreases hi - lo,
{
    if hi <= lo {
        hi
    } else if ignored(p, comp_start(p, lo, hi), hi) {
        if lo <= comp_cut(p, lo, hi) < hi {
            trim_back(p, lo, comp_cut(p, lo, hi))
        } else {
            hi
        }
    } else {
        hi
    }
}

/// The parent of a path (`Path::parent`): the text before its last component,
/// without trailing separators; `None` for the empty path and the root.
pub open spec fn parent(p: Seq<char>) -> Option<Seq<char>> {
    let lo = body_start(p);
    let e = trim_back(p, lo, p.len() as int);
    if e <= lo {
        if has_cur_dir(p) {
            Some(Seq::empty())
        } else {
            None
        }
    } else {
        Some(p.subrange(0, trim_back(p, lo, comp_cut(p, lo, e))))
    }
}

/// The last component of a path if it is an ordinary name (`Path::file_name`).
pub open spec fn file_name(p: Seq<char>) -> Option<Seq<char>> {
    let lo = body_start(p);
    let e = trim_back(p, lo, p.len() as int);
    if e <= lo {
        None
    } else {
        let c = p.subrange(comp_start(p, lo, e), e);
        if c == ".."@ {
            None
        } else {
            Some(c)
        }
    }
}

/// Without `.` members.
pub open spec fn drop_dots(ps: Seq<Seq<char>>) -> Seq<Seq<char>>
    decreases ps.len(),
{
    if ps.len() == 0 {
        ps
    } else {
        let rest = drop_dots(ps.drop_last());
        if ps.last() == "."@ {
            rest
        } else {
            rest.push(ps.last())
        }
    }
}

/// The components of a path (`Path::components`): the root as `/`, a leading
/// `.`, then the names between separators, without empty and `.` names.
pub open spec fn components(p: Seq<char>) -> Seq<Seq<char>> {
    let head = if is_absolute(p) {
        seq!["/"@]
    } else if has_cur_dir(p) {
        seq!["."@]
    } else {
        Seq::empty()
    };
    head + drop_dots(segments(p.skip(body_start(p)), '/'))
}

/// `p` starts with `base` component by component (`Path::starts_with`).
pub open spec fn path_starts_with(p: Seq<char>, base: Seq<char>) -> bool {
    let a = components(p);
    let b = components(base);
    b.len() <= a.len() && a.subrange(0, b.len() as int) == b
}

fn body_start_of(p: &[char]) -> (r: usize)
    ensures
        r as int == body_start(p@),
        r <= p@.len(),
{
    if p.len() > 0 && p[0] == '/' {
        1
    } else if p.len() > 0 && p[0] == '.' && (p.len() == 1 || p[1] == '/') {
        1
    } else {
        0
    }
}

fn last_sep_of(p: &[char], lo: usize, hi: usize) -> (r: Option<usize>)
    requires
        lo <= hi <= p@.len(),
    ensures
        r matches Some(j) ==> last_sep(p@, lo as int, hi as int) == Some(j as int) && lo <= j < hi,
        r is None ==> last_sep(p@, lo as int, hi as int) is None,
{
    let mut k = hi;
    while k > lo
        invariant
            lo <= k <= hi <= p@.len(),
            last_sep(p@, lo as int, hi as int) == last_sep(p@, lo as int, k as int),
        decreases k,
    {
        if p[k - 1] == '/' {
            return Some(k - 1);
        }
        k = k - 1;
    }
    None
}

fn trim_back_of(p: &[char], lo: usize, hi: usize) -> (r: usize)
    requires
        lo <= hi <= p@.len(),
    ensures
        r as int == trim_back(p@, lo as int, hi as int),
        r <= hi,
{
    let mut h = hi;
    while h > lo
        invariant
            lo <= h <= hi <= p@.len(),
            trim_back(p@, lo as int, hi as int) == trim_back(p@, lo as int, h as int),
        decreases h,
    {
        let (start, cut) = match last_sep_of(p, lo, h) {
            Some(j) => (j + 1, j),
            None => (lo, lo),
        };
        let ign = start >= h || (h == start + 1 && p[start] == '.');
        if ign && lo <= cut && cut < h {
            h = cut;
        } else {
            return h;
        }
    }
    h
}

/// The parent of a path (`Path::parent`).
pub fn parent_of(p: &str) -> (r: Option<String>)
    ensures
        match parent(p@) {
            Some(q) => r matches Some(s) && s@ == q,
            None => r is None,
        },
{
    let v = crate::text::chars_of(p);
    let lo = body_start_of(v.as_slice());
    let e = trim_back_of(v.as_slice(), lo, v.len());
    if e <= lo {
        if lo == 1 && v[0] == '.' {
            return Some(String::new());
        }
        return None;
    }
    let cut = match last_sep_of(v.as_slice(), lo, e) {
        Some(j) => j,
        None => lo,
    };
    let end = trim_back_of(v.as_slice(), lo, cut);
    let s = crate::text::slice_copy(v.as_slice(), 0, end);
    Some(crate::text::string_of(s.as_slice()))
}

/// The last component of a path if it is an ordinary name (`Path::file_name`).
pub fn file_name_of(p: &str) -> (r: Option<String>)
    ensures
        match file_name(p@) {
            Some(q) => r matches Some(s) && s@ == q,
            None => r is None,
        },
{
    let v = crate::text::chars_of(p);
    let lo = body_start_of(v.as_slice());
    let e = trim_back_of(v.as_slice(), lo, v.len());
    if e <= lo {
        return None;
    }
    let start = match last_sep_of(v.as_slice(), lo, e) {
        Some(j) => j + 1,
        None => lo,
    };
    let c = crate::text::slice_copy(v.as_slice(), start, e);
    let dd = crate::text::chars_of("..");
    if crate::text::chars_eq(c.as_slice(), dd.as_slice()) {
        return None;
    }
    Some(crate::text::string_of(c.as_slice()))
}

/// `a` joined with `b` (`Path::join`).
pub fn join_paths(a: &str, b: &str) -> (r: String)
    ensures
        r@ == join(a@, b@),
{
    let av = crate::text::chars_of(a);
    let bv = crate::text::chars_of(b);
    if bv.len() > 0 && bv[0] == '/' {
        return String::from_str(b);
    }
    let mut r = String::from_str(a);
    if av.len() > 0 && av[av.len() - 1] != '/' {
        r.append("/");
    }
    r.append(b);
    r
}

/// Whether a path is absolute.
pub fn is_absolute_path(p: &str) -> (b: bool)
    ensures
        b == is_absolute(p@),
{
    let v = crate::text::chars_of(p);
    v.len() > 0 && v[0] == '/'
}

fn drop_dot_names(ps: Vec<Vec<char>>) -> (r: Vec<Vec<char>>)
    ensures
        views(r@) == drop_dots(views(ps@)),
{
    let dot = crate::text::chars_of(".");
    let mut r: Vec<Vec<char>> = Vec::new();
    let mut i: usize = 0;
    while i < ps.len()
        invariant
            i <= ps@.len(),
            dot@ == "."@,
            views(r@) == drop_dots(views(ps@).take(i as int)),
        decreases ps@.len() - i,
    {
        let ghost old_r = views(r@);
        assert(views(ps@).take(i + 1).drop_last() =~= views(ps@).take(i as int));
        if !crate::text::chars_eq(ps[i].as_slice(), dot.as_slice()) {
            let c = crate::text::slice_copy(ps[i].as_slice(), 0, ps[i].len());
            assert(c@ =~= ps@[i as int]@);
            r.push(c);
            assert(views(r@) =~= old_r.push(ps@[i as int]@));
        }
        i = i + 1;
    }
    assert(views(ps@).take(ps@.len() as int) =~= views(ps@));
    r
}

/// The components of a path (`Path::components`).
pub fn components_of(p: &[char]) -> (r: Vec<Vec<char>>)
    ensures
        views(r@) == components(p@),
{
    let lo = body_start_of(p);
    let rest = crate::text::slice_copy(p, lo, p.len());
    assert(rest@ =~= p@.skip(lo as int));
    let body = drop_dot_names(segments_of(rest.as_slice(), '/'));
    let mut r: Vec<Vec<char>> = Vec::new();
    if p.len() > 0 && p[0] == '/' {
        r.push(crate::text::chars_of("/"));
        assert(views(r@) =~= seq!["/"@]);
    } else if lo == 1 {
        r.push(crate::text::chars_of("."));
        assert(views(r@) =~= seq!["."@]);
    } else {
        assert(views(r@) =~= Seq::<Seq<char>>::empty());
    }
    let ghost head = views(r@);
    let mut i: usize = 0;
    while i < body.len()
        invariant
            i <= body@.len(),
            views(r@) == head + views(body@).take(i as int),
        decreases body@.len() - i,
    {
        let c = crate::text::slice_copy(body[i].as_slice(), 0, body[i].len());
        assert(c@ =~= body@[i as int]@);
        let ghost old_r = views(r@);
        assert(views(body@).take(i + 1) =~= views(body@).take(i as int).push(body@[i as int]@));
        r.push(c);
        assert(views(r@) =~= old_r.push(c@));
        assert(views(r@) =~= head + views(body@).take(i + 1));
        i = i + 1;
    }
    assert(views(body@).take(body@.len() as int) =~= views(body@));
    r
}

/// Whether `p` starts with `base` component by component (`Path::starts_with`).
pub fn path_has_prefix(p: &str, base: &str) -> (b: bool)
    ensures
        b == path_starts_with(p@, base@),
{
    let pv = crate::text::chars_of(p);
    let bv = crate::text::chars_of(base);
    let a = components_of(pv.as_slice());
    let c = components_of(bv.as_slice());
    assert(views(a@).len() == a@.len() && views(c@).len() == c@.len());
    if c.len() > a.len() {
        return false;
    }
    let mut i: usize = 0;
    while i < c.len()
        invariant
            c@.len() <= a@.len(),
            i <= c@.len(),
            views(a@) == components(p@),
            views(c@) == components(base@),
            forall|j: int| 0 <= j < i ==> views(a@)[j] == views(c@)[j],
        decreases c@.len() - i,
    {
        assert(views(a@)[i as int] == a@[i as int]@ && views(c@)[i as int] == c@[i as int]@);
        if !crate::text::chars_eq(a[i].as_slice(), c[i].as_slice()) {
            assert(views(a@).subrange(0, c@.len() as int)[i as int] != views(c@)[i as int]);
            assert(views(a@) == components(p@));
            assert(views(c@) == components(base@));
            assert(views(a@).subrange(0, c@.len() as int) != views(c@));
            return false;
        }
        i = i + 1;
    }
    assert(views(a@).subrange(0, c@.len() as int) =~= views(c@));
    true
}

/// The rest of `p` after the components of `base` (`Path::strip_prefix`), its
/// remaining components joined with `/`; `None` when `p` does not start with `base`.
pub open spec fn stripped(p: Seq<char>, base: Seq<char>) -> Option<Seq<char>> {
    if path_starts_with(p, base) {
        Some(join_with(components(p).skip(components(base).len() as int), "/"@))
    } else {
        None
    }
}

/// `p` relative to `base` (`Path::strip_prefix`).
pub fn strip_path_prefix(p: &str, base: &str) -> (r: Option<String>)
    ensures
        match stripped(p@, base@) {
            Some(x) => r matches Some(y) && y@ == x,
            None => r is None,
        },
{
    if !path_has_prefix(p, base) {
        return None;
    }
    let pv = crate::text::chars_of(p);
    let bv = crate::text::chars_of(base);
    let a = components_of(pv.as_slice());
    let c = components_of(bv.as_slice());
    assert(views(c@).len() == c@.len());
    let slash = crate::text::chars_of("/");
    let j = join_from(&a, c.len(), slash.as_slice());
    Some(string_of(j.as_slice()))
}

} // verus!
