//! Lexicographic order on text and a stable sort of keyed items.
use crate::text::chars_of;
use vstd::multiset::Multiset;
use vstd::prelude::*;

verus! {

/// `a` comes strictly before `b` in lexicographic order of code points, the
/// order in which `str` and `OsStr` values compare.
pub open spec fn lex_lt(a: Seq<char>, b: Seq<char>) -> bool
    decreases a.len(),
{
    if a.len() == 0 {
        b.len() > 0
    } else if b.len() == 0 {
        false
    } else if a[0] != b[0] {
        (a[0] as u32) < (b[0] as u32)
    } else {
        lex_lt(a.drop_first(), b.drop_first())
    }
}

/// `a` comes before `b` or equals it.
pub open spec fn lex_le(a: Seq<char>, b: Seq<char>) -> bool {
    a == b || lex_lt(a, b)
}

pub proof fn lemma_lex_irreflexive(a: Seq<char>)
    ensures
        !lex_lt(a, a),
    decreases a.len(),
{
    if a.len() > 0 {
        lemma_lex_irreflexive(a.drop_first());
    }
}

pub proof fn lemma_lex_total(a: Seq<char>, b: Seq<char>)
    ensures
        lex_lt(a, b) || a == b || lex_lt(b, a),
    decreases a.len(),
{
    if a.len() > 0 && b.len() > 0 {
        if a[0] == b[0] {
            lemma_lex_total(a.drop_first(), b.drop_first());
            if a.drop_first() == b.drop_first() {
                assert(a =~= seq![a[0]] + a.drop_first());
                assert(b =~= seq![b[0]] + b.drop_first());
            }
        } else {
            assert((a[0] as u32) != (b[0] as u32)) by {
                vstd::utf8::char_u32_cast(a[0], a[0] as u32);
                vstd::utf8::char_u32_cast(b[0], b[0] as u32);
            }
        }
    } else if a.len() == 0 && b.len() == 0 {
        assert(a =~= b);
    }
}

pub proof fn lemma_lex_asymmetric(a: Seq<char>, b: Seq<char>)
    requires
        lex_lt(a, b),
    ensures
        !lex_lt(b, a),
    decreases a.len(),
{
    if a.len() > 0 && b.len() > 0 && a[0] == b[0] {
        lemma_lex_asymmetric(a.drop_first(), b.drop_first());
    }
}

pub proof fn lemma_lex_transitive(a: Seq<char>, b: Seq<char>, c: Seq<char>)
    requires
        lex_lt(a, b),
        lex_lt(b, c),
    ensures
        lex_lt(a, c),
    decreases a.len(),
{
    if a.len() > 0 && b.len() > 0 && c.len() > 0 {
        if a[0] == b[0] && b[0] == c[0] {
            lemma_lex_transitive(a.drop_first(), b.drop_first(), c.drop_first());
        }
    }
}

/// Whether `a` comes strictly before `b`.
pub fn lex_less(a: &[char], b: &[char]) -> (r: bool)
    ensures
        r == lex_lt(a@, b@),
{
    let mut i: usize = 0;
    assert(a@.skip(0) =~= a@);
    assert(b@.skip(0) =~= b@);
    while i < a.len() && i < b.len() && a[i] == b[i]
        invariant
            i <= a@.len(),
            i <= b@.len(),
            lex_lt(a@, b@) == lex_lt(a@.skip(i as int), b@.skip(i as int)),
        decreases a@.len() - i,
    {
        assert(a@.skip(i as int).drop_first() =~= a@.skip(i + 1));
        assert(b@.skip(i as int).drop_first() =~= b@.skip(i + 1));
        i = i + 1;
    }
    if i == a.len() {
        i < b.len()
    } else if i == b.len() {
        false
    } else {
        assert(a@.skip(i as int)[0] == a@[i as int]);
        assert(b@.skip(i as int)[0] == b@[i as int]);
        (a[i] as u32) < (b[i] as u32)
    }
}

/// Items ordered by key.
pub open spec fn sorted_by_key<T>(s: Seq<(String, T)>) -> bool {
    forall|i: int, j: int| 0 <= i < j < s.len() ==> lex_le(#[trigger] s[i].0@, #[trigger] s[j].0@)
}

/// Where an item with key `k` goes in sorted items: before the first item
/// whose key is greater, so that equal keys keep their order.
pub open spec fn ins_pos<T>(r: Seq<(String, T)>, k: Seq<char>) -> int
    decreases r.len(),
{
    if r.len() == 0 {
        0
    } else if lex_lt(k, r[0].0@) {
        0
    } else {
        1 + ins_pos(r.drop_first(), k)
    }
}

/// The items sorted by key, equal keys in the order given (insertion sort).
pub open spec fn sorted_seq<T>(s: Seq<(String, T)>) -> Seq<(String, T)>
    decreases s.len(),
{
    if s.len() == 0 {
        s
    } else {
        let r = sorted_seq(s.drop_last());
        r.insert(ins_pos(r, s.last().0@), s.last())
    }
}

proof fn lemma_ins_pos<T>(r: Seq<(String, T)>, k: Seq<char>, p: int)
    requires
        0 <= p <= r.len(),
        forall|i: int| 0 <= i < p ==> !lex_lt(k, #[trigger] r[i].0@),
        p < r.len() ==> lex_lt(k, r[p].0@),
    ensures
        ins_pos(r, k) == p,
    decreases p,
{
    if p > 0 {
        assert forall|i: int| 0 <= i < p - 1 implies !lex_lt(k, #[trigger] r.drop_first()[i].0@) by {
            assert(r.drop_first()[i] == r[i + 1]);
        }
        lemma_ins_pos(r.drop_first(), k, p - 1);
    }
}

/// Sorts items by key; items with equal keys keep their relative order.
pub fn sort_by_key<T>(v: Vec<(String, T)>) -> (r: Vec<(String, T)>)
    ensures
        r@ == sorted_seq(v@),
        r@.to_multiset() == v@.to_multiset(),
        r@.len() == v@.len(),
        sorted_by_key(r@),
{
    broadcast use vstd::seq_lib::group_to_multiset_ensures;

    let mut src = v;
    let mut r: Vec<(String, T)> = Vec::new();
    let ghost orig = src@;
    while src.len() > 0
        invariant
            r@.to_multiset().add(src@.to_multiset()) == orig.to_multiset(),
            r@.len() + src@.len() == orig.len(),
            sorted_by_key(r@),
            src@ == orig.skip(r@.len() as int),
            r@ == sorted_seq(orig.take(r@.len() as int)),
        decreases src@.len(),
    {
        let ghost before_src = src@;
        let x = src.remove(0);
        let ghost gx = x;
        let ghost before_r = r@;
        proof {
            vstd::seq_lib::to_multiset_remove(before_src, 0);
            assert(before_src[0] == gx);
        }
        let xk = chars_of(x.0.as_str());
        let mut p: usize = 0;
        while p < r.len() && !lex_less(xk.as_slice(), chars_of(r[p].0.as_str()).as_slice())
            invariant
                p <= r@.len(),
                xk@ == x.0@,
                forall|i: int| 0 <= i < p ==> lex_le(#[trigger] r@[i].0@, x.0@),
            decreases r@.len() - p,
        {
            proof {
                lemma_lex_total(x.0@, r@[p as int].0@);
            }
            p = p + 1;
        }
        let ghost before = r@;
        proof {
            assert forall|i: int| 0 <= i < p implies !lex_lt(x.0@, #[trigger] before[i].0@) by {
                if lex_lt(x.0@, before[i].0@) {
                    if before[i].0@ == x.0@ {
                        lemma_lex_irreflexive(x.0@);
                    } else {
                        lemma_lex_asymmetric(before[i].0@, x.0@);
                    }
                }
            }
            lemma_ins_pos(before, x.0@, p as int);
            let n = before.len() as int;
            assert(orig.take(n + 1).drop_last() =~= orig.take(n));
            assert(orig.take(n + 1).last() == gx);
            if p < r@.len() {
                assert(lex_lt(x.0@, r@[p as int].0@));
            }
            assert forall|j: int| p <= j < before.len() implies lex_lt(x.0@, #[trigger] before[j].0@) by {
                if j > p {
                    assert(lex_le(before[p as int].0@, before[j].0@));
                    if before[p as int].0@ != before[j].0@ {
                        lemma_lex_transitive(x.0@, before[p as int].0@, before[j].0@);
                    }
                }
            }
            vstd::seq_lib::to_multiset_insert(before, p as int, x);
        }
        r.insert(p, x);
        proof {
            broadcast use vstd::multiset::group_multiset_axioms;
            assert(before_src.contains(gx));
            vstd::seq_lib::to_multiset_contains(before_src, gx);
            assert(before_src.to_multiset().count(gx) > 0);
            assert(r@.to_multiset() == before_r.to_multiset().insert(gx));
            assert(r@.to_multiset().add(src@.to_multiset()) =~= orig.to_multiset());
            assert forall|i: int, j: int| 0 <= i < j < r@.len() implies lex_le(
                #[trigger] r@[i].0@,
                #[trigger] r@[j].0@,
            ) by {
                if i < p && j < p {
                    assert(r@[i] == before[i] && r@[j] == before[j]);
                } else if i < p && j == p {
                    assert(r@[i] == before[i]);
                } else if i < p && j > p {
                    assert(r@[i] == before[i] && r@[j] == before[j - 1]);
                    assert(lex_le(before[i].0@, x.0@));
                    assert(lex_lt(x.0@, before[j - 1].0@));
                    if before[i].0@ != x.0@ {
                        lemma_lex_transitive(before[i].0@, x.0@, before[j - 1].0@);
                    }
                } else if i == p {
                    assert(r@[j] == before[j - 1]);
                    assert(lex_lt(x.0@, before[j - 1].0@));
                } else {
                    assert(r@[i] == before[i - 1] && r@[j] == before[j - 1]);
                }
            }
        }
    }
    proof {
        assert(orig.take(orig.len() as int) =~= orig);
        assert(src@.to_multiset() =~= Multiset::empty());
        assert(r@.to_multiset().add(Multiset::empty()) =~= r@.to_multiset());
    }
    r
}

/// `ins_pos` on keys given as text.
pub open spec fn ins_pos_v<V>(r: Seq<(Seq<char>, V)>, k: Seq<char>) -> int
    decreases r.len(),
{
    if r.len() == 0 {
        0
    } else if lex_lt(k, r[0].0) {
        0
    } else {
        1 + ins_pos_v(r.drop_first(), k)
    }
}

/// `sorted_seq` on keys given as text.
pub open spec fn sorted_v<V>(s: Seq<(Seq<char>, V)>) -> Seq<(Seq<char>, V)>
    decreases s.len(),
{
    if s.len() == 0 {
        s
    } else {
        let r = sorted_v(s.drop_last());
        r.insert(ins_pos_v(r, s.last().0), s.last())
    }
}

/// Items ordered by key, keys given as text.
pub open spec fn keys_sorted<V>(s: Seq<(Seq<char>, V)>) -> bool {
    forall|i: int, j: int| 0 <= i < j < s.len() ==> lex_le(#[trigger] s[i].0, #[trigger] s[j].0)
}

/// No key occurs twice.
pub open spec fn keys_distinct<V>(s: Seq<(Seq<char>, V)>) -> bool {
    forall|i: int, j: int| 0 <= i < s.len() && 0 <= j < s.len() && i != j ==> #[trigger] s[i].0 != #[trigger] s[j].0
}

/// Each of two keys coming before or equal to the other are the same key.
proof fn lemma_lex_antisymmetric(a: Seq<char>, b: Seq<char>)
    requires
        lex_le(a, b),
        lex_le(b, a),
    ensures
        a == b,
{
    if a != b {
        lemma_lex_asymmetric(a, b);
    }
}

/// Either key comes before or equals the other.
proof fn lemma_lex_le_total(a: Seq<char>, b: Seq<char>)
    ensures
        lex_le(a, b) || lex_le(b, a),
{
    lemma_lex_total(a, b);
}

/// Coming before or equal is transitive.
proof fn lemma_lex_le_transitive(a: Seq<char>, b: Seq<char>, c: Seq<char>)
    requires
        lex_le(a, b),
        lex_le(b, c),
    ensures
        lex_le(a, c),
{
    if a != b && b != c {
        lemma_lex_transitive(a, b, c);
    }
}

/// The insertion point of `k`: every item before it has a key not after `k`,
/// and the item at it, if any, has a key after `k`.
proof fn lemma_ins_pos_v_bounds<V>(r: Seq<(Seq<char>, V)>, k: Seq<char>)
    ensures
        0 <= ins_pos_v(r, k) <= r.len(),
        forall|i: int| 0 <= i < ins_pos_v(r, k) ==> !lex_lt(k, #[trigger] r[i].0),
        ins_pos_v(r, k) < r.len() ==> lex_lt(k, r[ins_pos_v(r, k)].0),
    decreases r.len(),
{
    if r.len() > 0 && !lex_lt(k, r[0].0) {
        lemma_ins_pos_v_bounds(r.drop_first(), k);
        assert forall|i: int| 0 <= i < ins_pos_v(r, k) implies !lex_lt(k, #[trigger] r[i].0) by {
            if i > 0 {
                assert(r[i] == r.drop_first()[i - 1]);
            }
        }
    }
}

/// Sorting orders the items by key and keeps every item, each as often as
/// it occurs.
pub proof fn lemma_sorted_v<V>(s: Seq<(Seq<char>, V)>)
    ensures
        keys_sorted(sorted_v(s)),
        sorted_v(s).to_multiset() == s.to_multiset(),
        sorted_v(s).len() == s.len(),
    decreases s.len(),
{
    broadcast use vstd::seq_lib::group_to_multiset_ensures;

    if s.len() > 0 {
        let r = sorted_v(s.drop_last());
        let x = s.last();
        let k = x.0;
        lemma_sorted_v(s.drop_last());
        lemma_ins_pos_v_bounds(r, k);
        let p = ins_pos_v(r, k);
        let t = r.insert(p, x);
        assert(t == sorted_v(s));
        assert forall|i: int, j: int| 0 <= i < j < t.len() implies lex_le(
            #[trigger] t[i].0,
            #[trigger] t[j].0,
        ) by {
            if i < p {
                assert(t[i] == r[i]);
                lemma_lex_le_total(k, r[i].0);
                assert(lex_le(r[i].0, k));
                if j == p {
                    assert(t[j] == x);
                } else if j < p {
                    assert(t[j] == r[j]);
                } else {
                    assert(t[j] == r[j - 1]);
                    assert(lex_lt(k, r[p].0));
                    if j - 1 > p {
                        assert(lex_le(r[p].0, r[j - 1].0));
                        lemma_lex_le_transitive(k, r[p].0, r[j - 1].0);
                    }
                    lemma_lex_le_transitive(r[i].0, k, r[j - 1].0);
                }
            } else if i == p {
                assert(t[i] == x);
                assert(t[j] == r[j - 1]);
                assert(lex_lt(k, r[p].0));
                if j - 1 > p {
                    assert(lex_le(r[p].0, r[j - 1].0));
                    lemma_lex_le_transitive(k, r[p].0, r[j - 1].0);
                }
            } else {
                assert(t[i] == r[i - 1] && t[j] == r[j - 1]);
            }
        }
        vstd::seq_lib::to_multiset_insert(r, p, x);
        assert(s =~= s.drop_last().push(x));
    }
}

/// Two sequences sorted by key that hold the same items, no key occurring
/// twice, are the same sequence.
pub proof fn lemma_sorted_unique_keys<V>(x: Seq<(Seq<char>, V)>, y: Seq<(Seq<char>, V)>)
    requires
        keys_sorted(x),
        keys_sorted(y),
        keys_distinct(x),
        x.to_multiset() == y.to_multiset(),
    ensures
        x == y,
    decreases x.len(),
{
    broadcast use vstd::multiset::group_multiset_axioms;
    broadcast use vstd::seq_lib::group_to_multiset_ensures;

    if x.len() == 0 || y.len() == 0 {
        vstd::seq_lib::to_multiset_len(x);
        vstd::seq_lib::to_multiset_len(y);
        assert(x.len() == y.len());
        assert(x =~= y);
    } else {
        assert(y.to_multiset().count(y[0]) > 0);
        assert(x.contains(y[0]));
        let i = choose|i: int| 0 <= i < x.len() && x[i] == y[0];
        assert(x.to_multiset().count(x[0]) > 0);
        assert(y.contains(x[0]));
        let j = choose|j: int| 0 <= j < y.len() && y[j] == x[0];
        if i > 0 {
            assert(lex_le(x[0].0, x[i].0));
        }
        if j > 0 {
            assert(lex_le(y[0].0, y[j].0));
        }
        lemma_lex_antisymmetric(x[0].0, y[0].0);
        assert(x[i].0 == x[0].0);
        assert(i == 0);
        assert(x[0] == y[0]);
        assert(x.drop_first() =~= x.remove(0));
        assert(y.drop_first() =~= y.remove(0));
        assert(x.drop_first().to_multiset() == y.drop_first().to_multiset());
        assert forall|a: int, b: int| 0 <= a < b < x.drop_first().len() implies lex_le(
            #[trigger] x.drop_first()[a].0,
            #[trigger] x.drop_first()[b].0,
        ) by {
            assert(x.drop_first()[a] == x[a + 1] && x.drop_first()[b] == x[b + 1]);
        }
        assert forall|a: int, b: int| 0 <= a < b < y.drop_first().len() implies lex_le(
            #[trigger] y.drop_first()[a].0,
            #[trigger] y.drop_first()[b].0,
        ) by {
            assert(y.drop_first()[a] == y[a + 1] && y.drop_first()[b] == y[b + 1]);
        }
        assert forall|a: int, b: int|
            0 <= a < x.drop_first().len() && 0 <= b < x.drop_first().len() && a != b implies #[trigger] x.drop_first()[a].0
            != #[trigger] x.drop_first()[b].0 by {
            assert(x.drop_first()[a] == x[a + 1] && x.drop_first()[b] == x[b + 1]);
        }
        lemma_sorted_unique_keys(x.drop_first(), y.drop_first());
        assert(x =~= seq![x[0]] + x.drop_first());
        assert(y =~= seq![y[0]] + y.drop_first());
    }
}

/// Keyed items by their views, keys as text.
pub open spec fn seen<T: View>(s: Seq<(String, T)>) -> Seq<(Seq<char>, T::V)> {
    s.map_values(|p: (String, T)| (p.0@, p.1@))
}

proof fn lemma_ins_pos_seen<T: View>(r: Seq<(String, T)>, k: Seq<char>)
    ensures
        ins_pos(r, k) == ins_pos_v(seen(r), k),
    decreases r.len(),
{
    if r.len() > 0 {
        assert(seen(r).drop_first() =~= seen(r.drop_first()));
        lemma_ins_pos_seen(r.drop_first(), k);
    }
}

proof fn lemma_ins_pos_bound<T>(r: Seq<(String, T)>, k: Seq<char>)
    ensures
        0 <= ins_pos(r, k) <= r.len(),
    decreases r.len(),
{
    if r.len() > 0 {
        lemma_ins_pos_bound(r.drop_first(), k);
    }
}

/// Sorting commutes with looking at the items through their views.
pub proof fn lemma_sorted_seen<T: View>(s: Seq<(String, T)>)
    ensures
        seen(sorted_seq(s)) == sorted_v(seen(s)),
    decreases s.len(),
{
    if s.len() > 0 {
        let r = sorted_seq(s.drop_last());
        lemma_sorted_seen(s.drop_last());
        assert(seen(s).drop_last() =~= seen(s.drop_last()));
        lemma_ins_pos_seen(r, s.last().0@);
        lemma_ins_pos_bound(r, s.last().0@);
        let p = ins_pos(r, s.last().0@);
        assert(seen(r.insert(p, s.last())) =~= seen(r).insert(p, (s.last().0@, s.last().1@)));
    }
}

/// Sorting keyed items orders them by key and keeps every item, as seen
/// through its view, each as often as it occurs.
pub proof fn lemma_sorted_seq<T: View>(s: Seq<(String, T)>)
    ensures
        sorted_by_key(sorted_seq(s)),
        seen(sorted_seq(s)).to_multiset() == seen(s).to_multiset(),
        sorted_seq(s).len() == s.len(),
{
    lemma_sorted_seen(s);
    lemma_sorted_v(seen(s));
    let t = sorted_seq(s);
    assert(seen(t).len() == t.len());
    assert forall|i: int, j: int| 0 <= i < j < t.len() implies lex_le(#[trigger] t[i].0@, #[trigger] t[j].0@) by {
        assert(seen(t)[i].0 == t[i].0@ && seen(t)[j].0 == t[j].0@);
    }
}

} // verus!
