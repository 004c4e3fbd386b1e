//! Character-level text helpers with mathematical specifications.
use vstd::prelude::*;

verus! {

/// Unicode `White_Space` characters, as recognised by `char::is_whitespace`.
pub open spec fn is_ws(c: char) -> bool {
    ||| c == '\t' || c == '\n' || c == '\u{0B}' || c == '\u{0C}' || c == '\r' || c == ' '
    ||| c == '\u{85}' || c == '\u{A0}' || c == '\u{1680}'
    ||| ('\u{2000}' <= c && c <= '\u{200A}')
    ||| c == '\u{2028}' || c == '\u{2029}' || c == '\u{202F}' || c == '\u{205F}' || c == '\u{3000}'
}

pub fn is_whitespace(c: char) -> (b: bool)
    ensures
        b == is_ws(c),
{
    c == '\t' || c == '\n' || c == '\u{0B}' || c == '\u{0C}' || c == '\r' || c == ' '
        || c == '\u{85}' || c == '\u{A0}' || c == '\u{1680}' || ('\u{2000}' <= c && c <= '\u{200A}')
        || c == '\u{2028}' || c == '\u{2029}' || c == '\u{202F}' || c == '\u{205F}'
        || c == '\u{3000}'
}

/// `s` with leading whitespace removed.
pub open spec fn trim_start(s: Seq<char>) -> Seq<char>
    decreases s.len(),
{
    if s.len() > 0 && is_ws(s[0]) {
        trim_start(s.drop_first())
    } else {
        s
    }
}

/// `s` with trailing whitespace removed.
pub open spec fn trim_end(s: Seq<char>) -> Seq<char>
    decreases s.len(),
{
    if s.len() > 0 && is_ws(s.last()) {
        trim_end(s.drop_last())
    } else {
        s
    }
}

/// `s` with whitespace removed at both ends.
pub open spec fn trim(s: Seq<char>) -> Seq<char> {
    trim_end(trim_start(s))
}

pub open spec fn starts_with(s: Seq<char>, p: Seq<char>) -> bool {
    p.len() <= s.len() && s.subrange(0, p.len() as int) == p
}

pub open spec fn ends_with(s: Seq<char>, p: Seq<char>) -> bool {
    p.len() <= s.len() && s.subrange(s.len() - p.len(), s.len() as int) == p
}

/// `p` occurs in `s` starting at position `i`.
pub open spec fn occurs_at(s: Seq<char>, p: Seq<char>, i: int) -> bool {
    0 <= i && i + p.len() <= s.len() && s.subrange(i, i + p.len()) == p
}

/// Position of the first occurrence of `p` in `s`.
pub open spec fn is_first_occurrence(s: Seq<char>, p: Seq<char>, i: int) -> bool {
    occurs_at(s, p, i) && forall|j: int| 0 <= j < i ==> !occurs_at(s, p, j)
}

pub open spec fn occurs(s: Seq<char>, p: Seq<char>) -> bool {
    exists|i: int| occurs_at(s, p, i)
}

/// Chars of a string slice, as a vector.
pub fn chars_of(s: &str) -> (v: Vec<char>)
    ensures
        v@ == s@,
{
    let n = s.unicode_len();
    let mut v: Vec<char> = Vec::new();
    let mut i: usize = 0;
    while i < n
        invariant
            n == s@.len(),
            i <= n,
            v@ == s@.subrange(0, i as int),
        decreases n - i,
    {
        let c = s.get_char(i);
        v.push(c);
        i = i + 1;
        assert(v@ =~= s@.subrange(0, i as int));
    }
    assert(v@ =~= s@);
    v
}

/// Appends one character to a string (`String::push`).
#[verifier::external_body]
pub(crate) fn push_char(s: &mut String, c: char)
    ensures
        final(s)@ == old(s)@.push(c),
{
    s.push(c);
}

/// The string holding exactly the given characters.
pub fn string_of(v: &[char]) -> (s: String)
    ensures
        s@ == v@,
{
    let mut s = String::new();
    let mut i: usize = 0;
    while i < v.len()
        invariant
            i <= v@.len(),
            s@ == v@.subrange(0, i as int),
        decreases v@.len() - i,
    {
        push_char(&mut s, v[i]);
        i = i + 1;
        assert(s@ =~= v@.subrange(0, i as int));
    }
    assert(s@ =~= v@);
    s
}

/// Copy of `v[from..to]`.
pub fn slice_copy(v: &[char], from: usize, to: usize) -> (r: Vec<char>)
    requires
        from <= to <= v@.len(),
    ensures
        r@ == v@.subrange(from as int, to as int),
{
    let mut r: Vec<char> = Vec::new();
    let mut i = from;
    while i < to
        invariant
            from <= i <= to,
            to <= v@.len(),
            r@ == v@.subrange(from as int, i as int),
        decreases to - i,
    {
        r.push(v[i]);
        i = i + 1;
        assert(r@ =~= v@.subrange(from as int, i as int));
    }
    r
}

/// Concatenation of two character vectors.
pub fn concat(a: &[char], b: &[char]) -> (r: Vec<char>)
    ensures
        r@ == a@ + b@,
{
    let mut r = slice_copy(a, 0, a.len());
    let mut i: usize = 0;
    while i < b.len()
        invariant
            i <= b@.len(),
            r@ == a@ + b@.subrange(0, i as int),
        decreases b@.len() - i,
    {
        r.push(b[i]);
        i = i + 1;
        assert(r@ =~= a@ + b@.subrange(0, i as int));
    }
    assert(b@.subrange(0, b@.len() as int) =~= b@);
    r
}

proof fn lemma_trim_start_skip(s: Seq<char>, i: int)
    requires
        0 <= i <= s.len(),
        forall|j: int| 0 <= j < i ==> is_ws(#[trigger] s[j]),
    ensures
        trim_start(s) == trim_start(s.skip(i)),
    decreases i,
{
    if i > 0 {
        assert(s.drop_first() =~= s.skip(1));
        lemma_trim_start_skip(s.drop_first(), i - 1);
        assert(s.drop_first().skip(i - 1) =~= s.skip(i));
    } else {
        assert(s.skip(0) =~= s);
    }
}

proof fn lemma_trim_end_take(s: Seq<char>, k: int)
    requires
        0 <= k <= s.len(),
        forall|j: int| k <= j < s.len() ==> is_ws(#[trigger] s[j]),
    ensures
        trim_end(s) == trim_end(s.take(k)),
    decreases s.len() - k,
{
    if k < s.len() {
        lemma_trim_end_take(s.drop_last(), k);
        assert(s.drop_last().take(k) =~= s.take(k));
    } else {
        assert(s.take(k) =~= s);
    }
}

/// Index of the first non-whitespace character of `s` (or its length).
pub fn trim_start_index(s: &[char]) -> (i: usize)
    ensures
        i <= s@.len(),
        trim_start(s@) == s@.skip(i as int),
{
    let mut i: usize = 0;
    while i < s.len() && is_whitespace(s[i])
        invariant
            i <= s@.len(),
            forall|j: int| 0 <= j < i ==> is_ws(#[trigger] s@[j]),
        decreases s@.len() - i,
    {
        i = i + 1;
    }
    proof {
        lemma_trim_start_skip(s@, i as int);
        let t = s@.skip(i as int);
        if t.len() > 0 {
            assert(t[0] == s@[i as int]);
        }
    }
    i
}

/// Index one past the last non-whitespace character of `s` (or 0).
pub fn trim_end_index(s: &[char]) -> (k: usize)
    ensures
        k <= s@.len(),
        trim_end(s@) == s@.take(k as int),
{
    let mut k: usize = s.len();
    while k > 0 && is_whitespace(s[k - 1])
        invariant
            k <= s@.len(),
            forall|j: int| k <= j < s@.len() ==> is_ws(#[trigger] s@[j]),
        decreases k,
    {
        k = k - 1;
    }
    proof {
        lemma_trim_end_take(s@, k as int);
    }
    k
}

proof fn lemma_trim_end_keeps(s: Seq<char>, i: int)
    requires
        0 <= i < s.len(),
        !is_ws(s[i]),
    ensures
        trim_end(s).len() > i,
    decreases s.len(),
{
    if s.len() > 0 && is_ws(s.last()) {
        assert(i < s.len() - 1);
        lemma_trim_end_keeps(s.drop_last(), i);
    }
}

/// The characters of `s` with whitespace removed at both ends.
pub fn trim_chars(s: &[char]) -> (r: Vec<char>)
    ensures
        r@ == trim(s@),
{
    let i = trim_start_index(s);
    let t = slice_copy(s, i, s.len());
    let k = trim_end_index(t.as_slice());
    slice_copy(t.as_slice(), 0, k)
}

/// A copy of `s` with whitespace removed at both ends, as a `String`.
pub fn trim_str(s: &str) -> (r: String)
    ensures
        r@ == trim(s@),
{
    let v = chars_of(s);
    let t = trim_chars(v.as_slice());
    string_of(t.as_slice())
}

/// Whether `s` starts with `p`.
pub fn has_prefix(s: &[char], p: &[char]) -> (b: bool)
    ensures
        b == starts_with(s@, p@),
{
    if p.len() > s.len() {
        return false;
    }
    let mut i: usize = 0;
    while i < p.len()
        invariant
            p@.len() <= s@.len(),
            i <= p@.len(),
            forall|j: int| 0 <= j < i ==> s@[j] == p@[j],
        decreases p@.len() - i,
    {
        if s[i] != p[i] {
            assert(s@.subrange(0, p@.len() as int)[i as int] != p@[i as int]);
            return false;
        }
        i = i + 1;
    }
    assert(s@.subrange(0, p@.len() as int) =~= p@);
    true
}

/// Whether `p` occurs in `s` at position `at`.
pub fn matches_at(s: &[char], p: &[char], at: usize) -> (b: bool)
    ensures
        b == occurs_at(s@, p@, at as int),
{
    let n = s.len();
    if at > n || p.len() > n - at {
        return false;
    }
    let mut i: usize = 0;
    while i < p.len()
        invariant
            at + p@.len() <= s@.len(),
            n == s@.len(),
            i <= p@.len(),
            forall|j: int| 0 <= j < i ==> s@[at + j] == p@[j],
        decreases p@.len() - i,
    {
        assert(at + i < s@.len());
        if s[at + i] != p[i] {
            assert(s@.subrange(at as int, at + p@.len())[i as int] != p@[i as int]);
            return false;
        }
        i = i + 1;
    }
    assert(s@.subrange(at as int, at + p@.len()) =~= p@);
    true
}

/// Whether `s` ends with `p`.
pub fn has_suffix(s: &[char], p: &[char]) -> (b: bool)
    ensures
        b == ends_with(s@, p@),
{
    if p.len() > s.len() {
        return false;
    }
    matches_at(s, p, s.len() - p.len())
}

/// Position of the first occurrence of `p` in `s`, if any.
pub fn find(s: &[char], p: &[char]) -> (r: Option<usize>)
    ensures
        r matches Some(i) ==> is_first_occurrence(s@, p@, i as int),
        r is None ==> !occurs(s@, p@),
{
    let mut i: usize = 0;
    while i < s.len()
        invariant
            i <= s@.len(),
            forall|j: int| 0 <= j < i ==> !occurs_at(s@, p@, j),
        decreases s@.len() - i,
    {
        if matches_at(s, p, i) {
            return Some(i);
        }
        i = i + 1;
    }
    if matches_at(s, p, i) {
        return Some(i);
    }
    assert forall|j: int| !occurs_at(s@, p@, j) by {
        if 0 <= j && j <= s@.len() {
            assert(j < i || j == i);
        }
    }
    None
}

/// Pieces of `s` between occurrences of the separator `c` (`str::split(c)`).
pub open spec fn split_on(s: Seq<char>, c: char) -> Seq<Seq<char>>
    decreases s.len(),
{
    if s.len() == 0 {
        seq![Seq::<char>::empty()]
    } else {
        let prev = split_on(s.drop_last(), c);
        if s.last() == c {
            prev.push(Seq::<char>::empty())
        } else {
            prev.update(prev.len() - 1, prev.last().push(s.last()))
        }
    }
}

pub proof fn lemma_split_on_nonempty(s: Seq<char>, c: char)
    ensures
        split_on(s, c).len() >= 1,
    decreases s.len(),
{
    if s.len() > 0 {
        lemma_split_on_nonempty(s.drop_last(), c);
    }
}

/// The non-empty members of `ps`, in order.
pub open spec fn nonempty_only(ps: Seq<Seq<char>>) -> Seq<Seq<char>>
    decreases ps.len(),
{
    if ps.len() == 0 {
        ps
    } else {
        let rest = nonempty_only(ps.drop_last());
        if ps.last().len() > 0 {
            rest.push(ps.last())
        } else {
            rest
        }
    }
}

/// The non-empty pieces of `s` between occurrences of `c`.
pub open spec fn segments(s: Seq<char>, c: char) -> Seq<Seq<char>> {
    nonempty_only(split_on(s, c))
}

/// Views of a list of character vectors.
pub open spec fn views(v: Seq<Vec<char>>) -> Seq<Seq<char>> {
    v.map_values(|x: Vec<char>| x@)
}

/// `str::split(c)` on a character vector.
pub fn split_chars(s: &[char], c: char) -> (r: Vec<Vec<char>>)
    ensures
        views(r@) == split_on(s@, c),
{
    let mut r: Vec<Vec<char>> = Vec::new();
    let mut cur: Vec<char> = Vec::new();
    let mut i: usize = 0;
    while i < s.len()
        invariant
            i <= s@.len(),
            views(r@).push(cur@) == split_on(s@.take(i as int), c),
        decreases s@.len() - i,
    {
        let ghost prev = views(r@).push(cur@);
        assert(s@.take(i + 1).drop_last() =~= s@.take(i as int));
        if s[i] == c {
            r.push(cur);
            cur = Vec::new();
            assert(views(r@).push(cur@) =~= prev.push(Seq::<char>::empty()));
        } else {
            cur.push(s[i]);
            assert(views(r@).push(cur@) =~= prev.update(prev.len() - 1, prev.last().push(s@[i as int])));
        }
        i = i + 1;
    }
    assert(s@.take(s@.len() as int) =~= s@);
    r.push(cur);
    r
}

/// The non-empty pieces of `s` between occurrences of `c`.
pub fn segments_of(s: &[char], c: char) -> (r: Vec<Vec<char>>)
    ensures
        views(r@) == segments(s@, c),
{
    let parts = split_chars(s, c);
    let mut r: Vec<Vec<char>> = Vec::new();
    let mut i: usize = 0;
    while i < parts.len()
        invariant
            i <= parts@.len(),
            views(parts@) == split_on(s@, c),
            views(r@) == nonempty_only(views(parts@).take(i as int)),
        decreases parts@.len() - i,
    {
        let ghost before = views(parts@).take(i as int);
        let ghost old_r = views(r@);
        let ghost x = parts@[i as int]@;
        assert(views(parts@).take(i + 1).drop_last() =~= before);
        if parts[i].len() > 0 {
            let p = slice_copy(parts[i].as_slice(), 0, parts[i].len());
            assert(p@ =~= x);
            r.push(p);
            assert(views(r@) =~= old_r.push(x));
        }
        i = i + 1;
    }
    assert(views(parts@).take(parts@.len() as int) =~= views(parts@));
    r
}

/// The pieces joined with `sep` between them.
pub open spec fn join_with(parts: Seq<Seq<char>>, sep: Seq<char>) -> Seq<char>
    decreases parts.len(),
{
    if parts.len() == 0 {
        Seq::<char>::empty()
    } else if parts.len() == 1 {
        parts[0]
    } else {
        join_with(parts.drop_last(), sep) + sep + parts.last()
    }
}

/// Joining two non-empty lists of parts puts one separator between them.
pub proof fn lemma_join_append(x: Seq<Seq<char>>, y: Seq<Seq<char>>, sep: Seq<char>)
    requires
        x.len() > 0,
        y.len() > 0,
    ensures
        join_with(x + y, sep) == join_with(x, sep) + sep + join_with(y, sep),
    decreases y.len(),
{
    assert((x + y).drop_last() =~= x + y.drop_last());
    assert((x + y).last() == y.last());
    if y.len() == 1 {
        assert(x + y.drop_last() =~= x);
    } else {
        lemma_join_append(x, y.drop_last(), sep);
        assert(join_with(x + y, sep) =~= join_with(x, sep) + sep + join_with(y, sep));
    }
}

/// Extending the last part extends the joined text.
proof fn lemma_join_extend_last(v: Seq<Seq<char>>, sep: Seq<char>, ch: char)
    requires
        v.len() > 0,
    ensures
        join_with(v.update(v.len() - 1, v.last().push(ch)), sep) == join_with(v, sep).push(ch),
{
    let w = v.update(v.len() - 1, v.last().push(ch));
    if v.len() > 1 {
        assert(w.drop_last() =~= v.drop_last());
        assert(join_with(w, sep) =~= join_with(v, sep).push(ch));
    }
}

/// Splitting on a character and joining the parts with it gives the text back.
pub proof fn lemma_join_split_on(s: Seq<char>, c: char)
    ensures
        join_with(split_on(s, c), seq![c]) == s,
    decreases s.len(),
{
    if s.len() > 0 {
        lemma_join_split_on(s.drop_last(), c);
        lemma_split_on_nonempty(s.drop_last(), c);
        let prev = split_on(s.drop_last(), c);
        if s.last() == c {
            let v = prev.push(Seq::<char>::empty());
            assert(v.drop_last() =~= prev);
            assert(join_with(v, seq![c]) =~= s);
        } else {
            lemma_join_extend_last(prev, seq![c], s.last());
            assert(s.drop_last().push(s.last()) =~= s);
        }
    }
}

/// `parts[from..]` joined with `sep`.
pub fn join_from(parts: &Vec<Vec<char>>, from: usize, sep: &[char]) -> (r: Vec<char>)
    requires
        from <= parts@.len(),
    ensures
        r@ == join_with(views(parts@).skip(from as int), sep@),
{
    let mut r: Vec<char> = Vec::new();
    let mut i = from;
    while i < parts.len()
        invariant
            from <= i <= parts@.len(),
            r@ == join_with(views(parts@).subrange(from as int, i as int), sep@),
        decreases parts@.len() - i,
    {
        let ghost done = views(parts@).subrange(from as int, i as int);
        assert(views(parts@).subrange(from as int, i + 1).drop_last() =~= done);
        if i > from {
            let t = concat(r.as_slice(), sep);
            r = concat(t.as_slice(), parts[i].as_slice());
        } else {
            r = slice_copy(parts[i].as_slice(), 0, parts[i].len());
            assert(views(parts@).subrange(from as int, i + 1) =~= seq![parts@[i as int]@]);
        }
        i = i + 1;
    }
    assert(views(parts@).subrange(from as int, parts@.len() as int) =~= views(parts@).skip(
        from as int,
    ));
    r
}

/// `s` with every trailing copy of `p` removed (`str::trim_end_matches(p)`).
pub open spec fn strip_all_suffix(s: Seq<char>, p: Seq<char>) -> Seq<char>
    decreases s.len(),
{
    if p.len() > 0 && ends_with(s, p) {
        strip_all_suffix(s.subrange(0, s.len() - p.len()), p)
    } else {
        s
    }
}

/// `str::trim_end_matches(p)` for a non-empty pattern.
pub fn trim_end_matches(s: &[char], p: &[char]) -> (r: Vec<char>)
    ensures
        r@ == strip_all_suffix(s@, p@),
{
    let mut r = slice_copy(s, 0, s.len());
    assert(r@ =~= s@);
    if p.len() == 0 {
        return r;
    }
    while has_suffix(r.as_slice(), p)
        invariant
            p@.len() > 0,
            strip_all_suffix(r@, p@) == strip_all_suffix(s@, p@),
        decreases r@.len(),
    {
        let k = r.len() - p.len();
        r = slice_copy(r.as_slice(), 0, k);
    }
    r
}

/// Position of the last occurrence of `c` in `s`.
pub open spec fn last_index_of(s: Seq<char>, c: char) -> Option<int>
    decreases s.len(),
{
    if s.len() == 0 {
        None
    } else if s.last() == c {
        Some(s.len() - 1)
    } else {
        last_index_of(s.drop_last(), c)
    }
}

/// Position of the last occurrence of `c` in `s`.
pub fn rfind_char(s: &[char], c: char) -> (r: Option<usize>)
    ensures
        r matches Some(i) ==> last_index_of(s@, c) == Some(i as int) && i < s@.len() && s@[i as int] == c,
        r is None ==> last_index_of(s@, c) is None,
{
    let mut k = s.len();
    assert(s@.take(k as int) =~= s@);
    while k > 0
        invariant
            k <= s@.len(),
            last_index_of(s@, c) == last_index_of(s@.take(k as int), c),
        decreases k,
    {
        assert(s@.take(k as int).drop_last() =~= s@.take(k - 1));
        if s[k - 1] == c {
            return Some(k - 1);
        }
        k = k - 1;
    }
    None
}

/// Whether two character sequences are equal.
pub fn chars_eq(a: &[char], b: &[char]) -> (r: bool)
    ensures
        r == (a@ == b@),
{
    if a.len() != b.len() {
        return false;
    }
    let r = has_prefix(a, b);
    assert(a@ =~= a@.subrange(0, b@.len() as int));
    r
}

/// Whether two string slices hold the same characters.
pub fn str_eq(a: &str, b: &str) -> (r: bool)
    ensures
        r == (a@ == b@),
{
    let av = chars_of(a);
    let bv = chars_of(b);
    chars_eq(av.as_slice(), bv.as_slice())
}

/// `s` with every leading copy of `p` removed (`str::trim_start_matches(p)`).
pub open spec fn strip_all_prefix(s: Seq<char>, p: Seq<char>) -> Seq<char>
    decreases s.len(),
{
    if p.len() > 0 && starts_with(s, p) {
        strip_all_prefix(s.subrange(p.len() as int, s.len() as int), p)
    } else {
        s
    }
}

/// `str::trim_start_matches(p)`.
pub fn trim_start_matches(s: &[char], p: &[char]) -> (r: Vec<char>)
    ensures
        r@ == strip_all_prefix(s@, p@),
{
    let mut r = slice_copy(s, 0, s.len());
    assert(r@ =~= s@);
    if p.len() == 0 {
        return r;
    }
    while has_prefix(r.as_slice(), p)
        invariant
            p@.len() > 0,
            strip_all_prefix(r@, p@) == strip_all_prefix(s@, p@),
        decreases r@.len(),
    {
        let n = r.len();
        r = slice_copy(r.as_slice(), p.len(), n);
    }
    r
}

/// Position of the first occurrence of `c` in `s`.
pub open spec fn first_index_of(s: Seq<char>, c: char) -> Option<int>
    decreases s.len(),
{
    if s.len() == 0 {
        None
    } else if s[0] == c {
        Some(0)
    } else {
        match first_index_of(s.drop_first(), c) {
            Some(i) => Some(i + 1),
            None => None,
        }
    }
}

pub proof fn lemma_first_index_of(s: Seq<char>, c: char, i: int)
    requires
        0 <= i <= s.len(),
        forall|j: int| 0 <= j < i ==> s[j] != c,
    ensures
        i < s.len() && s[i] == c ==> first_index_of(s, c) == Some(i),
        i == s.len() ==> first_index_of(s, c) is None,
    decreases i,
{
    if i > 0 {
        lemma_first_index_of(s.drop_first(), c, i - 1);
    }
}

/// What the first occurrence of `c` is: the position of a `c` with none before it.
pub proof fn lemma_first_index_props(s: Seq<char>, c: char)
    ensures
        match first_index_of(s, c) {
            Some(i) => 0 <= i < s.len() && s[i] == c && forall|j: int| 0 <= j < i ==> s[j] != c,
            None => forall|j: int| 0 <= j < s.len() ==> s[j] != c,
        },
    decreases s.len(),
{
    if s.len() > 0 && s[0] != c {
        lemma_first_index_props(s.drop_first(), c);
        match first_index_of(s.drop_first(), c) {
            Some(i) => {
                assert forall|j: int| 0 <= j < i + 1 implies s[j] != c by {
                    if j > 0 {
                        assert(s[j] == s.drop_first()[j - 1]);
                    }
                }
            },
            None => {
                assert forall|j: int| 0 <= j < s.len() implies s[j] != c by {
                    if j > 0 {
                        assert(s[j] == s.drop_first()[j - 1]);
                    }
                }
            },
        }
    }
}

/// Text that is empty or ends with a newline keeps its lines when more text follows.
pub proof fn lemma_lines_concat(a: Seq<char>, b: Seq<char>)
    requires
        a.len() == 0 || a.last() == '\n',
    ensures
        lines_of(a + b) == lines_of(a) + lines_of(b),
    decreases a.len(),
{
    if a.len() == 0 {
        assert(a + b =~= b);
        assert(lines_of(a) + lines_of(b) =~= lines_of(b));
    } else {
        lemma_first_index_props(a, '\n');
        let i = first_index_of(a, '\n')->0;
        assert(first_index_of(a, '\n') is Some) by {
            if first_index_of(a, '\n') is None {
                assert(a[a.len() - 1] == '\n');
            }
        }
        assert forall|j: int| 0 <= j < i implies (a + b)[j] != '\n' by {
            assert((a + b)[j] == a[j]);
        }
        lemma_first_index_of(a + b, '\n', i);
        assert((a + b).take(i) =~= a.take(i));
        assert((a + b).skip(i + 1) =~= a.skip(i + 1) + b);
        let rest = a.skip(i + 1);
        assert(rest.len() == 0 || rest.last() == '\n') by {
            if rest.len() > 0 {
                assert(rest.last() == a.last());
            }
        }
        lemma_lines_concat(rest, b);
        assert(seq![strip_cr(a.take(i))] + (lines_of(rest) + lines_of(b)) =~= (seq![strip_cr(a.take(i))]
            + lines_of(rest)) + lines_of(b));
    }
}

/// Position of the first occurrence of `c` in `s`.
pub fn find_char(s: &[char], c: char) -> (r: Option<usize>)
    ensures
        match first_index_of(s@, c) {
            Some(i) => r == Some(i as usize) && 0 <= i < s@.len(),
            None => r is None,
        },
{
    let mut i: usize = 0;
    while i < s.len()
        invariant
            i <= s@.len(),
            forall|j: int| 0 <= j < i ==> s@[j] != c,
        decreases s@.len() - i,
    {
        if s[i] == c {
            proof {
                lemma_first_index_of(s@, c, i as int);
            }
            return Some(i);
        }
        i = i + 1;
    }
    proof {
        lemma_first_index_of(s@, c, i as int);
    }
    None
}

/// A line without its trailing carriage return.
pub open spec fn strip_cr(x: Seq<char>) -> Seq<char> {
    if x.len() > 0 && x.last() == '\r' {
        x.drop_last()
    } else {
        x
    }
}

/// The lines of `s` (`str::lines`): split at `\n`, a `\r` before each `\n`
/// removed, no empty line after a final `\n`.
pub open spec fn lines_of(s: Seq<char>) -> Seq<Seq<char>>
    decreases s.len(),
{
    if s.len() == 0 {
        Seq::empty()
    } else {
        match first_index_of(s, '\n') {
            Some(i) => if 0 <= i < s.len() {
                seq![strip_cr(s.take(i))] + lines_of(s.skip(i + 1))
            } else {
                Seq::empty()
            },
            None => seq![s],
        }
    }
}

/// The lines of `s` (`str::lines`).
pub fn lines(s: &[char]) -> (r: Vec<Vec<char>>)
    ensures
        views(r@) == lines_of(s@),
{
    let mut r: Vec<Vec<char>> = Vec::new();
    let mut rest = slice_copy(s, 0, s.len());
    assert(rest@ =~= s@);
    assert(views(r@) =~= Seq::<Seq<char>>::empty());
    while rest.len() > 0
        invariant
            views(r@) + lines_of(rest@) == lines_of(s@),
        decreases rest@.len(),
    {
        let ghost old_r = views(r@);
        let ghost old_rest = rest@;
        match find_char(rest.as_slice(), '\n') {
            Some(i) => {
                let mut line = slice_copy(rest.as_slice(), 0, i);
                if line.len() > 0 && line[line.len() - 1] == '\r' {
                    let k = line.len() - 1;
                    line = slice_copy(line.as_slice(), 0, k);
                }
                assert(line@ == strip_cr(old_rest.take(i as int)));
                r.push(line);
                let n = rest.len();
                rest = slice_copy(rest.as_slice(), i + 1, n);
                assert(rest@ =~= old_rest.skip(i + 1));
                assert(views(r@) =~= old_r.push(strip_cr(old_rest.take(i as int))));
                assert(lines_of(old_rest) == seq![strip_cr(old_rest.take(i as int))] + lines_of(rest@));
                assert(views(r@) + lines_of(rest@) =~= old_r + lines_of(old_rest));
            },
            None => {
                let line = slice_copy(rest.as_slice(), 0, rest.len());
                assert(line@ =~= old_rest);
                r.push(line);
                rest = Vec::new();
                assert(views(r@) =~= old_r.push(old_rest));
                assert(views(r@) + lines_of(rest@) =~= old_r + lines_of(old_rest));
            },
        }
    }
    assert(views(r@) + lines_of(rest@) =~= views(r@));
    r
}

/// Pieces of `s` between the non-overlapping occurrences of `p`, found left
/// to right (`str::split(p)` for a non-empty pattern).
pub open spec fn split_str(s: Seq<char>, p: Seq<char>) -> Seq<Seq<char>>
    decreases s.len(),
{
    if p.len() == 0 {
        seq![s]
    } else if exists|i: int| is_first_occurrence(s, p, i) {
        let i = choose|i: int| is_first_occurrence(s, p, i);
        if 0 <= i && i + p.len() <= s.len() {
            seq![s.take(i)] + split_str(s.skip(i + p.len()), p)
        } else {
            seq![s]
        }
    } else {
        seq![s]
    }
}

pub proof fn lemma_first_occurrence_unique(s: Seq<char>, p: Seq<char>, i: int, j: int)
    requires
        is_first_occurrence(s, p, i),
        is_first_occurrence(s, p, j),
    ensures
        i == j,
{
    if i < j {
        assert(!occurs_at(s, p, i));
    } else if j < i {
        assert(!occurs_at(s, p, j));
    }
}

/// `str::split(p)` for a non-empty pattern.
pub fn split_on_str(s: &[char], p: &[char]) -> (r: Vec<Vec<char>>)
    requires
        p@.len() > 0,
    ensures
        views(r@) == split_str(s@, p@),
{
    let mut r: Vec<Vec<char>> = Vec::new();
    let mut rest = slice_copy(s, 0, s.len());
    assert(rest@ =~= s@);
    assert(views(r@) =~= Seq::<Seq<char>>::empty());
    loop
        invariant
            p@.len() > 0,
            views(r@) + split_str(rest@, p@) == split_str(s@, p@),
        decreases rest@.len(),
    {
        let ghost old_r = views(r@);
        let ghost old_rest = rest@;
        match find(rest.as_slice(), p) {
            Some(i) => {
                proof {
                    let c = choose|k: int| is_first_occurrence(old_rest, p@, k);
                    lemma_first_occurrence_unique(old_rest, p@, c, i as int);
                }
                let piece = slice_copy(rest.as_slice(), 0, i);
                r.push(piece);
                let n = rest.len();
                rest = slice_copy(rest.as_slice(), i + p.len(), n);
                assert(rest@ =~= old_rest.skip(i + p@.len()));
                assert(views(r@) =~= old_r.push(old_rest.take(i as int)));
                assert(views(r@) + split_str(rest@, p@) =~= old_r + split_str(old_rest, p@));
            },
            None => {
                assert(!exists|i: int| is_first_occurrence(old_rest, p@, i));
                r.push(rest);
                assert(views(r@) =~= old_r.push(old_rest));
                assert(views(r@) =~= old_r + split_str(old_rest, p@));
                return r;
            },
        }
    }
}

/// Each piece trimmed.
pub open spec fn trim_each(ps: Seq<Seq<char>>) -> Seq<Seq<char>> {
    ps.map_values(|x: Seq<char>| trim(x))
}

/// Each piece trimmed.
pub fn trim_all(ps: &Vec<Vec<char>>) -> (r: Vec<Vec<char>>)
    ensures
        views(r@) == trim_each(views(ps@)),
{
    let mut r: Vec<Vec<char>> = Vec::new();
    let mut i: usize = 0;
    while i < ps.len()
        invariant
            i <= ps@.len(),
            views(r@) == trim_each(views(ps@).take(i as int)),
        decreases ps@.len() - i,
    {
        let t = trim_chars(ps[i].as_slice());
        let ghost old_r = views(r@);
        r.push(t);
        assert(views(r@) =~= old_r.push(trim(ps@[i as int]@)));
        assert(trim_each(views(ps@).take(i + 1)) =~= trim_each(views(ps@).take(i as int)).push(
            trim(ps@[i as int]@),
        ));
        i = i + 1;
    }
    assert(views(ps@).take(ps@.len() as int) =~= views(ps@));
    r
}

/// `join_with` seen from the front.
pub proof fn lemma_join_front(v: Seq<Seq<char>>, sep: Seq<char>)
    requires
        v.len() >= 2,
    ensures
        join_with(v, sep) == v[0] + sep + join_with(v.drop_first(), sep),
    decreases v.len(),
{
    if v.len() == 2 {
        assert(v.drop_last() =~= seq![v[0]]);
        assert(v.drop_first() =~= seq![v[1]]);
        assert(join_with(v.drop_last(), sep) == v[0]);
        assert(join_with(v.drop_first(), sep) == v[1]);
        assert(join_with(v, sep) =~= v[0] + sep + v[1]);
    } else {
        lemma_join_front(v.drop_last(), sep);
        assert(v.drop_last().drop_first() =~= v.drop_first().drop_last());
        assert(v.drop_first().last() == v.last());
        assert(join_with(v, sep) =~= v[0] + sep + join_with(v.drop_first(), sep));
    }
}

/// In `a, rest` the first `", "` is the one after `a` when `a` holds none.
pub proof fn lemma_first_comma_space(a: Seq<char>, rest: Seq<char>)
    requires
        !occurs(a, ", "@),
    ensures
        is_first_occurrence(a + ", "@ + rest, ", "@, a.len() as int),
{
    reveal_strlit(", ");
    let sep = ", "@;
    let s = a + sep + rest;
    assert(s.subrange(a.len() as int, a.len() + 2int) =~= sep);
    assert forall|j: int| 0 <= j < a.len() implies !occurs_at(s, sep, j) by {
        if j + 2 <= a.len() {
            if occurs_at(s, sep, j) {
                assert(a.subrange(j, j + 2) =~= s.subrange(j, j + 2));
                assert(occurs_at(a, sep, j));
            }
        } else {
            assert(s[j + 1] == ',');
            if occurs_at(s, sep, j) {
                assert(s.subrange(j, j + 2)[1] == sep[1]);
            }
        }
    }
}

/// Splitting at `", "` undoes joining with `", "`, when no piece holds `", "`.
pub proof fn lemma_split_join_comma(v: Seq<Seq<char>>)
    requires
        v.len() > 0,
        forall|i: int| 0 <= i < v.len() ==> !occurs(#[trigger] v[i], ", "@),
    ensures
        split_str(join_with(v, ", "@), ", "@) == v,
    decreases v.len(),
{
    reveal_strlit(", ");
    let sep = ", "@;
    if v.len() == 1 {
        assert(join_with(v, sep) == v[0]);
        assert(!exists|i: int| is_first_occurrence(v[0], sep, i));
        assert(split_str(v[0], sep) =~= v);
    } else {
        let rest = join_with(v.drop_first(), sep);
        lemma_join_front(v, sep);
        let s = join_with(v, sep);
        assert(s == v[0] + sep + rest);
        lemma_first_comma_space(v[0], rest);
        let i = choose|i: int| is_first_occurrence(s, sep, i);
        lemma_first_occurrence_unique(s, sep, i, v[0].len() as int);
        assert(s.take(i) =~= v[0]);
        assert(s.skip(i + 2) =~= rest);
        assert forall|k: int| 0 <= k < v.drop_first().len() implies !occurs(
            #[trigger] v.drop_first()[k],
            sep,
        ) by {
            assert(v.drop_first()[k] == v[k + 1]);
        }
        lemma_split_join_comma(v.drop_first());
        assert(split_str(s, sep) =~= seq![v[0]] + v.drop_first());
        assert(seq![v[0]] + v.drop_first() =~= v);
    }
}

/// Length of the run of non-whitespace characters at the start of `s`.
pub open spec fn token_end(s: Seq<char>) -> int
    decreases s.len(),
{
    if s.len() == 0 || is_ws(s[0]) {
        0
    } else {
        1 + token_end(s.drop_first())
    }
}

pub proof fn lemma_token_end_bounds(s: Seq<char>)
    ensures
        0 <= token_end(s) <= s.len(),
        s.len() > 0 && !is_ws(s[0]) ==> token_end(s) >= 1,
        forall|j: int| 0 <= j < token_end(s) ==> !is_ws(#[trigger] s[j]),
        token_end(s) < s.len() ==> is_ws(s[token_end(s)]),
    decreases s.len(),
{
    if s.len() > 0 && !is_ws(s[0]) {
        lemma_token_end_bounds(s.drop_first());
        assert forall|j: int| 0 <= j < token_end(s) implies !is_ws(#[trigger] s[j]) by {
            if j > 0 {
                assert(s[j] == s.drop_first()[j - 1]);
            }
        }
    }
}

pub proof fn lemma_trim_start_len(s: Seq<char>)
    ensures
        trim_start(s).len() <= s.len(),
        trim_start(s).len() > 0 ==> !is_ws(trim_start(s)[0]),
    decreases s.len(),
{
    if s.len() > 0 && is_ws(s[0]) {
        lemma_trim_start_len(s.drop_first());
    }
}

/// The whitespace-separated words of `s` (`str::split_whitespace`).
pub open spec fn words(s: Seq<char>) -> Seq<Seq<char>>
    decreases s.len(),
{
    let t = trim_start(s);
    if t.len() == 0 {
        Seq::empty()
    } else {
        proof {
            lemma_trim_start_len(s);
            lemma_token_end_bounds(t);
        }
        seq![t.take(token_end(t))] + words(t.skip(token_end(t)))
    }
}

/// Index of the first whitespace character of `s` at or after `from` (or its length).
fn token_end_index(s: &[char], from: usize) -> (k: usize)
    requires
        from <= s@.len(),
    ensures
        from <= k <= s@.len(),
        k - from == token_end(s@.skip(from as int)),
{
    let mut k = from;
    while k < s.len() && !is_whitespace(s[k])
        invariant
            from <= k <= s@.len(),
            forall|j: int| from <= j < k ==> !is_ws(#[trigger] s@[j]),
        decreases s@.len() - k,
    {
        k = k + 1;
    }
    proof {
        lemma_token_end_exact(s@.skip(from as int), k - from);
    }
    k
}

proof fn lemma_token_end_exact(s: Seq<char>, n: int)
    requires
        0 <= n <= s.len(),
        forall|j: int| 0 <= j < n ==> !is_ws(#[trigger] s[j]),
        n < s.len() ==> is_ws(s[n]),
    ensures
        token_end(s) == n,
    decreases n,
{
    if n > 0 {
        assert forall|j: int| 0 <= j < n - 1 implies !is_ws(#[trigger] s.drop_first()[j]) by {
            assert(s.drop_first()[j] == s[j + 1]);
        }
        lemma_token_end_exact(s.drop_first(), n - 1);
    }
}

/// `str::split_whitespace`.
pub fn split_words(s: &[char]) -> (r: Vec<Vec<char>>)
    ensures
        views(r@) == words(s@),
{
    let mut r: Vec<Vec<char>> = Vec::new();
    let mut rest = slice_copy(s, 0, s.len());
    assert(rest@ =~= s@);
    loop
        invariant
            views(r@) + words(rest@) == words(s@),
        decreases rest@.len(),
    {
        let i = trim_start_index(rest.as_slice());
        let n = rest.len();
        if i == n {
            proof {
                assert(trim_start(rest@).len() == 0);
                assert(words(rest@) =~= Seq::<Seq<char>>::empty());
                assert(views(r@) + words(rest@) =~= views(r@));
            }
            return r;
        }
        let k = token_end_index(rest.as_slice(), i);
        let ghost t = trim_start(rest@);
        proof {
            lemma_trim_start_len(rest@);
            lemma_token_end_bounds(t);
            assert(t =~= rest@.skip(i as int));
        }
        let word = slice_copy(rest.as_slice(), i, k);
        let next = slice_copy(rest.as_slice(), k, n);
        let ghost old_r = views(r@);
        let ghost old_rest = rest@;
        assert(word@ =~= t.take(token_end(t)));
        assert(next@ =~= t.skip(token_end(t)));
        r.push(word);
        rest = next;
        assert(views(r@) =~= old_r.push(word@));
        assert(words(old_rest) == seq![word@] + words(rest@));
        assert(views(r@) + words(rest@) =~= old_r + words(old_rest));
    }
}

/// Position of the first occurrence of `p` in `s`, if any (`str::find`).
pub open spec fn find_first(s: Seq<char>, p: Seq<char>) -> Option<int> {
    if exists|i: int| is_first_occurrence(s, p, i) {
        Some(choose|i: int| is_first_occurrence(s, p, i))
    } else {
        None
    }
}

/// Position of the first occurrence of `p` in `s`, if any (`str::find`).
pub fn find_first_of(s: &[char], p: &[char]) -> (r: Option<usize>)
    ensures
        match find_first(s@, p@) {
            Some(i) => r == Some(i as usize) && 0 <= i && i + p@.len() <= s@.len(),
            None => r is None,
        },
        r matches Some(i) ==> i + p@.len() <= s@.len(),
{
    match find(s, p) {
        Some(i) => {
            proof {
                let c = choose|k: int| is_first_occurrence(s@, p@, k);
                lemma_first_occurrence_unique(s@, p@, c, i as int);
            }
            Some(i)
        },
        None => {
            proof {
                if exists|k: int| is_first_occurrence(s@, p@, k) {
                    let c = choose|k: int| is_first_occurrence(s@, p@, k);
                    assert(occurs_at(s@, p@, c));
                }
            }
            None
        },
    }
}

/// The text of an optional string.
pub open spec fn opt_view(o: Option<String>) -> Option<Seq<char>> {
    match o {
        Some(x) => Some(x@),
        None => None,
    }
}

/// The text of an optional string slice.
pub open spec fn opt_str_view(o: Option<&str>) -> Option<Seq<char>> {
    match o {
        Some(x) => Some(x@),
        None => None,
    }
}

/// Whether `name` starts with one of the prefixes (any name passes an empty list).
pub open spec fn name_included(name: Seq<char>, prefixes: Seq<Seq<char>>) -> bool {
    prefixes.len() == 0 || exists|i: int| 0 <= i < prefixes.len() && starts_with(name, #[trigger] prefixes[i])
}

/// Whether `name` starts with one of the prefixes.
pub fn has_any_prefix(name: &str, prefixes: &Vec<String>) -> (b: bool)
    ensures
        b == exists|i: int| 0 <= i < prefixes@.len() && starts_with(name@, #[trigger] prefixes@[i]@),
{
    let n = chars_of(name);
    let mut i: usize = 0;
    while i < prefixes.len()
        invariant
            i <= prefixes@.len(),
            n@ == name@,
            forall|j: int| 0 <= j < i ==> !starts_with(name@, #[trigger] prefixes@[j]@),
        decreases prefixes@.len() - i,
    {
        if has_prefix(n.as_slice(), chars_of(prefixes[i].as_str()).as_slice()) {
            return true;
        }
        i = i + 1;
    }
    false
}

/// The character of a decimal digit.
pub open spec fn digit_char(d: nat) -> char {
    ((d + 48) as u8) as char
}

/// A number in decimal, most significant digit first.
pub open spec fn decimal(n: nat) -> Seq<char>
    decreases n,
{
    if n < 10 {
        seq![digit_char(n)]
    } else {
        decimal(n / 10).push(digit_char(n % 10))
    }
}

/// A number in decimal.
pub fn decimal_text(n: usize) -> (r: Vec<char>)
    ensures
        r@ == decimal(n as nat),
    decreases n,
{
    let d: u8 = (n % 10) as u8;
    let c: char = (d + 48) as char;
    if n < 10 {
        let mut r: Vec<char> = Vec::new();
        r.push(c);
        assert(r@ =~= seq![digit_char(n as nat)]);
        r
    } else {
        let mut r = decimal_text(n / 10);
        r.push(c);
        r
    }
}

} // verus!
