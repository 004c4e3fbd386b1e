//! Content checksums: `sha256:` and the hex SHA-256 digest of a file, of a
//! text, or of a directory's files (their relative paths and contents, in path
//! order, without `.git` directories).
use crate::error::cat2;
use crate::order::{
    keys_distinct, lemma_sorted_seen, lemma_sorted_unique_keys, lemma_sorted_v, seen, sort_by_key,
    sorted_v,
};
use crate::paths::components;
use crate::text::{chars_of, string_of};
use vstd::prelude::*;
use vstd::string::StringSliceAdditionalSpecFns;
use vstd::utf8::encode_utf8;

verus! {

/// The SHA-256 digest of a byte sequence.
pub uninterp spec fn sha256_of(data: Seq<u8>) -> Seq<u8>;

/// `sha2::Sha256::digest`: the result is named `sha256_of` of the input bytes,
/// 32 bytes long (`Output<Sha256>` is a 32-byte array).
#[verifier::external_body]
fn sha256(data: &[u8]) -> (r: Vec<u8>)
    ensures
        r@ == sha256_of(data@),
        r@.len() == 32,
{
    <sha2::Sha256 as sha2::Digest>::digest(data).to_vec()
}

/// The lowercase hex digit of a value below 16.
pub open spec fn hex_digit(n: u8) -> char {
    if n < 10 {
        ((n + 48) as u8) as char
    } else {
        ((n + 87) as u8) as char
    }
}

/// Lowercase hex of bytes, two digits per byte, high digit first.
pub open spec fn hex_of(data: Seq<u8>) -> Seq<char>
    decreases data.len(),
{
    if data.len() == 0 {
        Seq::empty()
    } else {
        hex_of(data.drop_last()) + seq![hex_digit(data.last() / 16), hex_digit(data.last() % 16)]
    }
}

/// `hex::encode`: the bytes as lowercase hex, two digits per byte, high digit
/// first (as its documentation and `HEX_CHARS_LOWER` table give).
#[verifier::external_body]
fn hex_encode(data: &[u8]) -> (r: String)
    ensures
        r@ == hex_of(data@),
{
    hex::encode(data)
}

/// The checksum text of some bytes.
pub open spec fn checksum_of(data: Seq<u8>) -> Seq<char> {
    "sha256:"@ + hex_of(sha256_of(data))
}

/// Whether a character is a lowercase hex digit (`0`-`9`, `a`-`f`).
pub open spec fn is_lower_hex(c: char) -> bool {
    ('0' <= c && c <= '9') || ('a' <= c && c <= 'f')
}

/// The shape of every checksum: `sha256:` followed by 64 lowercase hex
/// digits, 71 characters in all.
pub open spec fn checksum_shaped(t: Seq<char>) -> bool {
    &&& t.len() == 71
    &&& t.take(7) == "sha256:"@
    &&& forall|i: int| 7 <= i < 71 ==> is_lower_hex(#[trigger] t[i])
}

/// Hex text has two digits per byte, each a lowercase hex digit.
proof fn lemma_hex_of_shape(data: Seq<u8>)
    ensures
        hex_of(data).len() == 2 * data.len(),
        forall|i: int| 0 <= i < hex_of(data).len() ==> is_lower_hex(#[trigger] hex_of(data)[i]),
    decreases data.len(),
{
    if data.len() > 0 {
        lemma_hex_of_shape(data.drop_last());
        let x = data.last();
        let hi = x / 16;
        let lo = x % 16;
        assert(is_lower_hex(hex_digit(hi)) && is_lower_hex(hex_digit(lo)));
        let prev = hex_of(data.drop_last());
        let h = hex_of(data);
        assert(h == prev + seq![hex_digit(hi), hex_digit(lo)]);
        assert forall|i: int| 0 <= i < h.len() implies is_lower_hex(#[trigger] h[i]) by {
            if i < prev.len() {
                assert(h[i] == prev[i]);
            } else if i == prev.len() {
                assert(h[i] == hex_digit(hi));
            } else {
                assert(h[i] == hex_digit(lo));
            }
        }
    }
}

/// The checksum of a 32-byte digest has the checksum shape.
proof fn lemma_checksum_shape(data: Seq<u8>)
    requires
        sha256_of(data).len() == 32,
    ensures
        checksum_shaped(checksum_of(data)),
{
    reveal_strlit("sha256:");
    let h = hex_of(sha256_of(data));
    lemma_hex_of_shape(sha256_of(data));
    let t = checksum_of(data);
    assert(t.take(7) =~= "sha256:"@);
    assert forall|i: int| 7 <= i < 71 implies is_lower_hex(#[trigger] t[i]) by {
        assert(t[i] == h[i - 7]);
    }
}

/// The checksum of some bytes.
pub fn compute_bytes_checksum(data: &[u8]) -> (r: String)
    ensures
        r@ == checksum_of(data@),
        checksum_shaped(r@),
{
    let digest = sha256(data);
    let hex = hex_encode(digest.as_slice());
    proof {
        lemma_checksum_shape(data@);
    }
    cat2("sha256:", hex.as_str())
}

/// The checksum of a text (its UTF-8 bytes).
pub fn compute_string_checksum(content: &str) -> (r: String)
    ensures
        r@ == checksum_of(encode_utf8(content@)),
        checksum_shaped(r@),
{
    let bytes = content.as_bytes();
    compute_bytes_checksum(bytes)
}

/// A file below a directory: its path relative to the directory and its bytes.
pub type TreeFile = (String, Vec<u8>);

/// Whether a relative path lies inside a `.git` directory.
pub open spec fn in_git_dir(p: Seq<char>) -> bool {
    exists|i: int| 0 <= i < components(p).len() - 1 && #[trigger] components(p)[i] == ".git"@
}

/// The order in which directory files are hashed: by path, component by
/// component (`Path` order). A path's text with each `/` read as `\0` sorts
/// the same way, since no component holds `\0` and `\0` precedes every other
/// character.
pub open spec fn order_key(p: Seq<char>) -> Seq<char> {
    p.map_values(|c: char| if c == '/' { '\0' } else { c })
}

/// The files that are hashed, in walk order: those outside `.git` directories.
pub open spec fn hashed_files(files: Seq<TreeFile>) -> Seq<TreeFile>
    decreases files.len(),
{
    if files.len() == 0 {
        Seq::empty()
    } else {
        let rest = hashed_files(files.drop_first());
        if in_git_dir(files[0].0@) {
            rest
        } else {
            seq![files[0]] + rest
        }
    }
}

/// The hashed files, each with its order key.
pub open spec fn file_entries(files: Seq<TreeFile>) -> Seq<(Seq<char>, (Seq<char>, Seq<u8>))> {
    hashed_files(files).map_values(|f: TreeFile| (order_key(f.0@), f@))
}

/// The bytes a directory's checksum is taken of: for each file in order,
/// its relative path, a zero byte, and its content.
pub open spec fn tree_bytes(files: Seq<(Seq<char>, (Seq<char>, Seq<u8>))>) -> Seq<u8>
    decreases files.len(),
{
    if files.len() == 0 {
        Seq::empty()
    } else {
        tree_bytes(files.drop_last()) + encode_utf8(files.last().1.0) + seq![0u8] + files.last().1.1
    }
}

/// Replaces each `/` by `\0`.
fn order_key_of(p: &str) -> (r: String)
    ensures
        r@ == order_key(p@),
{
    let v = chars_of(p);
    let mut out: Vec<char> = Vec::new();
    let mut i: usize = 0;
    while i < v.len()
        invariant
            i <= v@.len(),
            out@ == order_key(v@.take(i as int)),
        decreases v@.len() - i,
    {
        let c = if v[i] == '/' {
            '\0'
        } else {
            v[i]
        };
        out.push(c);
        assert(order_key(v@.take(i + 1)) =~= order_key(v@.take(i as int)).push(c));
        i = i + 1;
    }
    assert(v@.take(v@.len() as int) =~= v@);
    string_of(out.as_slice())
}

/// Whether a relative path lies inside a `.git` directory.
fn is_in_git_dir(p: &str) -> (b: bool)
    ensures
        b == in_git_dir(p@),
{
    let v = chars_of(p);
    let comps = crate::paths::components_of(v.as_slice());
    let git = chars_of(".git");
    let n = comps.len();
    let mut i: usize = 0;
    while i < n && i + 1 < n
        invariant
            i <= n,
            n == comps@.len(),
            crate::text::views(comps@) == components(p@),
            git@ == ".git"@,
            forall|j: int| 0 <= j < i && j < n - 1 ==> components(p@)[j] != ".git"@,
        decreases n - i,
    {
        assert(crate::text::views(comps@)[i as int] == comps@[i as int]@);
        if crate::text::chars_eq(comps[i].as_slice(), git.as_slice()) {
            return true;
        }
        i = i + 1;
    }
    false
}

/// Appends `more` to `out`.
fn append_bytes(out: &mut Vec<u8>, more: &[u8])
    ensures
        final(out)@ == old(out)@ + more@,
{
    let mut i: usize = 0;
    while i < more.len()
        invariant
            i <= more@.len(),
            out@ == old(out)@ + more@.take(i as int),
        decreases more@.len() - i,
    {
        out.push(more[i]);
        assert(more@.take(i + 1) =~= more@.take(i as int).push(more@[i as int]));
        i = i + 1;
    }
    assert(more@.take(more@.len() as int) =~= more@);
}

/// The bytes a directory's checksum is taken of.
pub fn tree_checksum_input(files: Vec<TreeFile>) -> (r: Vec<u8>)
    ensures
        r@ == tree_bytes(sorted_v(file_entries(files@))),
{
    let mut keyed: Vec<(String, TreeFile)> = Vec::new();
    let mut rest = files;
    let ghost orig = rest@;
    while rest.len() > 0
        invariant
            seen(keyed@) + file_entries(rest@) == file_entries(orig),
        decreases rest@.len(),
    {
        let ghost before = rest@;
        let f = rest.remove(0);
        assert(before[0] == f && before.drop_first() =~= rest@);
        assert(file_entries(before) == if in_git_dir(f.0@) {
            file_entries(rest@)
        } else {
            seq![(order_key(f.0@), f@)] + file_entries(rest@)
        }) by {
            assert(hashed_files(before).map_values(|g: TreeFile| (order_key(g.0@), g@)) =~= (if in_git_dir(
                f.0@,
            ) {
                hashed_files(rest@)
            } else {
                seq![f] + hashed_files(rest@)
            }).map_values(|g: TreeFile| (order_key(g.0@), g@)));
        }
        if !is_in_git_dir(f.0.as_str()) {
            let key = order_key_of(f.0.as_str());
            let ghost old_seen = seen(keyed@);
            let ghost gf = f;
            keyed.push((key, f));
            assert(seen(keyed@) =~= old_seen.push((order_key(gf.0@), gf@)));
            assert(seen(keyed@) + file_entries(rest@) =~= old_seen + file_entries(before));
        }
    }
    assert(file_entries(rest@) =~= Seq::<(Seq<char>, (Seq<char>, Seq<u8>))>::empty());
    assert(seen(keyed@) =~= file_entries(orig));
    let sorted = sort_by_key(keyed);
    proof {
        lemma_sorted_seen(keyed@);
    }
    let mut out: Vec<u8> = Vec::new();
    let mut i: usize = 0;
    while i < sorted.len()
        invariant
            i <= sorted@.len(),
            out@ == tree_bytes(seen(sorted@).take(i as int)),
        decreases sorted@.len() - i,
    {
        let path_bytes = sorted[i].1.0.as_str().as_bytes();
        append_bytes(&mut out, path_bytes);
        out.push(0u8);
        append_bytes(&mut out, sorted[i].1.1.as_slice());
        assert(seen(sorted@).take(i + 1).drop_last() =~= seen(sorted@).take(i as int));
        i = i + 1;
    }
    assert(seen(sorted@).take(sorted@.len() as int) =~= seen(sorted@));
    out
}

/// What a source's content is at checksum time.
pub enum SourceContent {
    /// A file and its bytes
    File(Vec<u8>),
    /// A directory and the files below it (paths relative to it)
    Dir(Vec<TreeFile>),
    /// Nothing there
    Missing,
}

/// The checksum of a source: of a file's bytes; of a directory's files in
/// path order, outside `.git` directories; of no bytes when nothing is there.
pub fn compute_checksum(content: SourceContent) -> (r: String)
    ensures
        checksum_shaped(r@),
        match content {
            SourceContent::File(b) => r@ == checksum_of(b@),
            SourceContent::Dir(files) => r@ == checksum_of(
                tree_bytes(sorted_v(file_entries(files@))),
            ),
            SourceContent::Missing => r@ == checksum_of(Seq::empty()),
        },
{
    match content {
        SourceContent::File(b) => compute_bytes_checksum(b.as_slice()),
        SourceContent::Dir(files) => {
            let bytes = tree_checksum_input(files);
            compute_bytes_checksum(bytes.as_slice())
        },
        SourceContent::Missing => {
            let empty: Vec<u8> = Vec::new();
            assert(empty@ =~= Seq::<u8>::empty());
            compute_bytes_checksum(empty.as_slice())
        },
    }
}

/// The checksum of a source's content before it is copied.
pub fn compute_source_checksum(content: SourceContent) -> (r: String)
    ensures
        checksum_shaped(r@),
        match content {
            SourceContent::File(b) => r@ == checksum_of(b@),
            SourceContent::Dir(files) => r@ == checksum_of(
                tree_bytes(sorted_v(file_entries(files@))),
            ),
            SourceContent::Missing => r@ == checksum_of(Seq::empty()),
        },
{
    compute_checksum(content)
}

/// Hashing a listing split in two hashes each part in turn.
proof fn lemma_hashed_concat(s1: Seq<TreeFile>, s2: Seq<TreeFile>)
    ensures
        hashed_files(s1 + s2) == hashed_files(s1) + hashed_files(s2),
    decreases s1.len(),
{
    if s1.len() == 0 {
        assert(s1 + s2 =~= s2);
        assert(hashed_files(s1) + hashed_files(s2) =~= hashed_files(s2));
    } else {
        assert((s1 + s2).drop_first() =~= s1.drop_first() + s2);
        assert((s1 + s2)[0] == s1[0]);
        lemma_hashed_concat(s1.drop_first(), s2);
        if in_git_dir(s1[0].0@) {
        } else {
            assert(seq![s1[0]] + (hashed_files(s1.drop_first()) + hashed_files(s2)) =~= (seq![s1[0]]
                + hashed_files(s1.drop_first())) + hashed_files(s2));
        }
    }
}

/// The entries of a listing split in two are those of each part in turn.
proof fn lemma_entries_concat(s1: Seq<TreeFile>, s2: Seq<TreeFile>)
    ensures
        file_entries(s1 + s2) == file_entries(s1) + file_entries(s2),
{
    lemma_hashed_concat(s1, s2);
    assert(file_entries(s1 + s2) =~= file_entries(s1) + file_entries(s2));
}

/// The entries of a listing depend only on which files it lists, not on
/// their order.
proof fn lemma_entries_multiset(a: Seq<TreeFile>, b: Seq<TreeFile>)
    requires
        a.to_multiset() == b.to_multiset(),
    ensures
        file_entries(a).to_multiset() == file_entries(b).to_multiset(),
    decreases a.len(),
{
    broadcast use vstd::multiset::group_multiset_axioms;
    broadcast use vstd::seq_lib::group_to_multiset_ensures;

    if a.len() == 0 {
        vstd::seq_lib::to_multiset_len(a);
        vstd::seq_lib::to_multiset_len(b);
        assert(b =~= a);
    } else {
        let x = a.last();
        let a1 = a.drop_last();
        assert(a =~= a1.push(x));
        assert(b.to_multiset().count(x) > 0);
        assert(b.contains(x));
        let k = choose|k: int| 0 <= k < b.len() && b[k] == x;
        let b1 = b.remove(k);
        assert(b1.to_multiset() == b.to_multiset().remove(x));
        assert(a1.to_multiset() =~= a.to_multiset().remove(x));
        lemma_entries_multiset(a1, b1);
        let one = seq![x];
        assert(a =~= a1 + one);
        lemma_entries_concat(a1, one);
        assert(b =~= b.take(k) + one + b.skip(k + 1));
        assert(b1 =~= b.take(k) + b.skip(k + 1));
        lemma_entries_concat(b.take(k) + one, b.skip(k + 1));
        lemma_entries_concat(b.take(k), one);
        lemma_entries_concat(b.take(k), b.skip(k + 1));
        vstd::seq_lib::lemma_multiset_commutative(file_entries(a1), file_entries(one));
        vstd::seq_lib::lemma_multiset_commutative(file_entries(b.take(k)) + file_entries(one), file_entries(b.skip(k + 1)));
        vstd::seq_lib::lemma_multiset_commutative(file_entries(b.take(k)), file_entries(one));
        vstd::seq_lib::lemma_multiset_commutative(file_entries(b.take(k)), file_entries(b.skip(k + 1)));
        assert(file_entries(b).to_multiset() =~= file_entries(b1).to_multiset().add(file_entries(one).to_multiset()));
    }
}

/// Replacing `/` by a zero character loses nothing in a path without zero
/// characters.
proof fn lemma_order_key_injective(p: Seq<char>, q: Seq<char>)
    requires
        !p.contains('\0'),
        !q.contains('\0'),
        order_key(p) == order_key(q),
    ensures
        p == q,
{
    assert(p.len() == order_key(p).len() && q.len() == order_key(q).len());
    assert forall|i: int| 0 <= i < p.len() implies p[i] == q[i] by {
        assert(order_key(p)[i] == order_key(q)[i]);
        assert(order_key(p)[i] == (if p[i] == '/' { '\0' } else { p[i] }));
        assert(order_key(q)[i] == (if q[i] == '/' { '\0' } else { q[i] }));
        assert(p[i] != '\0') by {
            if p[i] == '\0' {
                assert(p.contains(p[i]));
            }
        }
        assert(q[i] != '\0') by {
            if q[i] == '\0' {
                assert(q.contains(q[i]));
            }
        }
    }
    assert(p =~= q);
}

/// The hashed files are among the listed ones.
proof fn lemma_hashed_from(s: Seq<TreeFile>)
    ensures
        forall|i: int| 0 <= i < hashed_files(s).len() ==> s.contains(#[trigger] hashed_files(s)[i]),
    decreases s.len(),
{
    if s.len() > 0 {
        lemma_hashed_from(s.drop_first());
        let rest = hashed_files(s.drop_first());
        assert forall|i: int| 0 <= i < hashed_files(s).len() implies s.contains(#[trigger] hashed_files(s)[i]) by {
            if in_git_dir(s[0].0@) {
                let j = choose|j: int| 0 <= j < s.drop_first().len() && s.drop_first()[j] == rest[i];
                assert(s[j + 1] == rest[i]);
            } else if i == 0 {
                assert(s[0] == hashed_files(s)[0]);
            } else {
                assert(hashed_files(s)[i] == rest[i - 1]);
                let j = choose|j: int| 0 <= j < s.drop_first().len() && s.drop_first()[j] == rest[i - 1];
                assert(s[j + 1] == rest[i - 1]);
            }
        }
    }
}

/// Every listed file has its own path, none with a zero character.
pub open spec fn distinct_paths(s: Seq<TreeFile>) -> bool {
    &&& forall|i: int, j: int|
        0 <= i < s.len() && 0 <= j < s.len() && i != j ==> #[trigger] s[i].0@ != #[trigger] s[j].0@
    &&& forall|i: int| 0 <= i < s.len() ==> !(#[trigger] s[i].0@).contains('\0')
}

/// With distinct paths, no two hashed entries share an order key.
proof fn lemma_entry_keys_distinct(s: Seq<TreeFile>)
    requires
        distinct_paths(s),
    ensures
        keys_distinct(file_entries(s)),
    decreases s.len(),
{
    if s.len() > 0 {
        let t = s.drop_first();
        assert(distinct_paths(t)) by {
            assert forall|i: int, j: int|
                0 <= i < t.len() && 0 <= j < t.len() && i != j implies #[trigger] t[i].0@ != #[trigger] t[j].0@ by {
                assert(t[i] == s[i + 1] && t[j] == s[j + 1]);
            }
            assert forall|i: int| 0 <= i < t.len() implies !(#[trigger] t[i].0@).contains('\0') by {
                assert(t[i] == s[i + 1]);
            }
        }
        lemma_entry_keys_distinct(t);
        lemma_hashed_from(t);
        let rest = file_entries(t);
        if !in_git_dir(s[0].0@) {
            let e = file_entries(s);
            assert(e =~= seq![(order_key(s[0].0@), s[0]@)] + rest);
            assert forall|i: int, j: int|
                0 <= i < e.len() && 0 <= j < e.len() && i != j implies #[trigger] e[i].0 != #[trigger] e[j].0 by {
                if i > 0 && j > 0 {
                    assert(e[i] == rest[i - 1] && e[j] == rest[j - 1]);
                } else {
                    let m = if i == 0 { j } else { i };
                    assert(e[m] == rest[m - 1]);
                    let f = hashed_files(t)[m - 1];
                    assert(rest[m - 1] == (order_key(f.0@), f@));
                    assert(t.contains(f));
                    let k = choose|k: int| 0 <= k < t.len() && t[k] == f;
                    assert(s[k + 1] == f);
                    assert(s[0].0@ != s[k + 1].0@);
                    assert(!s[0].0@.contains('\0') && !s[k + 1].0@.contains('\0'));
                    if order_key(s[0].0@) == order_key(f.0@) {
                        lemma_order_key_injective(s[0].0@, f.0@);
                    }
                }
            }
        }
    }
}

/// Distinct keys stay distinct in any reordering of the same items.
proof fn lemma_keys_distinct_perm<V>(x: Seq<(Seq<char>, V)>, y: Seq<(Seq<char>, V)>)
    requires
        x.to_multiset() == y.to_multiset(),
        keys_distinct(y),
    ensures
        keys_distinct(x),
{
    broadcast use vstd::multiset::group_multiset_axioms;
    broadcast use vstd::seq_lib::group_to_multiset_ensures;

    assert(y.no_duplicates()) by {
        assert forall|i: int, j: int| 0 <= i < y.len() && 0 <= j < y.len() && i != j implies y[i] != y[j] by {
            assert(y[i].0 != y[j].0);
        }
    }
    y.lemma_multiset_has_no_duplicates();
    assert forall|e: (Seq<char>, V)| x.to_multiset().contains(e) implies x.to_multiset().count(e) == 1 by {}
    x.lemma_multiset_has_no_duplicates_conv();
    assert forall|i: int, j: int|
        0 <= i < x.len() && 0 <= j < x.len() && i != j implies #[trigger] x[i].0 != #[trigger] x[j].0 by {
        assert(x[i] != x[j]);
        assert(x.to_multiset().count(x[i]) > 0 && x.to_multiset().count(x[j]) > 0);
        assert(y.contains(x[i]) && y.contains(x[j]));
        let a = choose|a: int| 0 <= a < y.len() && y[a] == x[i];
        let b = choose|b: int| 0 <= b < y.len() && y[b] == x[j];
        assert(a != b);
    }
}

/// The checksum of a directory does not depend on the order in which its
/// files were listed: two listings of the same files, each path listed once,
/// give the same bytes to hash and so the same checksum.
pub proof fn law_checksum_ignores_listing_order(a: Seq<TreeFile>, b: Seq<TreeFile>)
    requires
        a.to_multiset() == b.to_multiset(),
        distinct_paths(a),
    ensures
        tree_bytes(sorted_v(file_entries(a))) == tree_bytes(sorted_v(file_entries(b))),
        checksum_of(tree_bytes(sorted_v(file_entries(a)))) == checksum_of(
            tree_bytes(sorted_v(file_entries(b))),
        ),
{
    let ea = file_entries(a);
    let eb = file_entries(b);
    lemma_entries_multiset(a, b);
    lemma_entry_keys_distinct(a);
    lemma_sorted_v(ea);
    lemma_sorted_v(eb);
    lemma_keys_distinct_perm(sorted_v(ea), ea);
    lemma_sorted_unique_keys(sorted_v(ea), sorted_v(eb));
}

/// Leaving out `.git` files a second time leaves out nothing more.
proof fn lemma_hashed_idempotent(s: Seq<TreeFile>)
    ensures
        hashed_files(hashed_files(s)) == hashed_files(s),
    decreases s.len(),
{
    if s.len() > 0 {
        lemma_hashed_idempotent(s.drop_first());
        let rest = hashed_files(s.drop_first());
        if !in_git_dir(s[0].0@) {
            lemma_hashed_concat(seq![s[0]], rest);
            let e = Seq::<TreeFile>::empty();
            assert(hashed_files(e) =~= e);
            assert(seq![s[0]].drop_first() =~= e);
            assert(seq![s[0]][0] == s[0]);
            assert(hashed_files(seq![s[0]]) =~= seq![s[0]]);
            assert(s =~= seq![s[0]] + s.drop_first());
        }
    }
}

/// Files inside `.git` directories do not count: two listings that hold the
/// same files outside `.git` directories (each such path listed once), in
/// any order and whatever lies under `.git`, give the same bytes to hash and
/// so the same checksum.
pub proof fn law_checksum_ignores_git_files(a: Seq<TreeFile>, b: Seq<TreeFile>)
    requires
        hashed_files(a).to_multiset() == hashed_files(b).to_multiset(),
        distinct_paths(hashed_files(a)),
    ensures
        tree_bytes(sorted_v(file_entries(a))) == tree_bytes(sorted_v(file_entries(b))),
        checksum_of(tree_bytes(sorted_v(file_entries(a)))) == checksum_of(
            tree_bytes(sorted_v(file_entries(b))),
        ),
{
    lemma_hashed_idempotent(a);
    lemma_hashed_idempotent(b);
    assert(file_entries(hashed_files(a)) == file_entries(a));
    assert(file_entries(hashed_files(b)) == file_entries(b));
    law_checksum_ignores_listing_order(hashed_files(a), hashed_files(b));
}

} // verus!
