//! Cursor hooks: the scripts a `hooks.json` refers to must exist next to it.
use crate::error::{error_text, lit, string_views, ApsError};
use crate::paths::{file_name, file_name_of, join, join_paths, parent, parent_of};
use crate::text::{
    chars_of, find_first, find_first_of, has_prefix, slice_copy, split_words, starts_with,
    str_eq, string_of, views, words,
};
use vstd::prelude::*;

verus! {

/// A parsed configuration value (JSON or YAML).
#[derive(Debug)]
pub enum HookValue {
    Null,
    Bool(bool),
    Number(String),
    String(String),
    Sequence(Vec<HookValue>),
    Mapping(Vec<(HookValue, HookValue)>),
    Tagged,
}

/// The commands of a configuration value: every string under a `command` key,
/// in document order.
pub open spec fn cmds(v: HookValue) -> Seq<Seq<char>>
    decreases v, 0int,
{
    match v {
        HookValue::Mapping(m) => cmds_pairs(m@),
        HookValue::Sequence(s) => cmds_list(s@),
        _ => Seq::empty(),
    }
}

pub open spec fn cmds_list(s: Seq<HookValue>) -> Seq<Seq<char>>
    decreases s, 1int,
{
    if s.len() == 0 {
        Seq::empty()
    } else {
        cmds(s[0]) + cmds_list(s.drop_first())
    }
}

pub open spec fn cmds_pairs(s: Seq<(HookValue, HookValue)>) -> Seq<Seq<char>>
    decreases s, 1int,
{
    if s.len() == 0 {
        Seq::empty()
    } else {
        let here = match (s[0].0, s[0].1) {
            (HookValue::String(k), HookValue::String(c)) if k@ == "command"@ => seq![c@],
            _ => cmds(s[0].1),
        };
        here + cmds_pairs(s.drop_first())
    }
}

/// The commands of a mapping are those of each of its pairs, in order: a
/// mapping split anywhere into two parts gives the commands of the first part
/// followed by those of the second, so no pair is skipped.
pub proof fn law_pair_commands_concatenate(x: Seq<(HookValue, HookValue)>, y: Seq<(HookValue, HookValue)>)
    ensures
        cmds_pairs(x + y) == cmds_pairs(x) + cmds_pairs(y),
    decreases x.len(),
{
    if x.len() == 0 {
        assert(x + y =~= y);
        assert(cmds_pairs(x) + cmds_pairs(y) =~= cmds_pairs(y));
    } else {
        assert((x + y)[0] == x[0]);
        assert((x + y).drop_first() =~= x.drop_first() + y);
        law_pair_commands_concatenate(x.drop_first(), y);
        assert(cmds_pairs(x + y) =~= cmds_pairs(x) + cmds_pairs(y));
    }
}

/// The items of a sequence contribute their commands in order: a sequence
/// split anywhere gives the commands of the first part, then of the second.
pub proof fn law_list_commands_concatenate(x: Seq<HookValue>, y: Seq<HookValue>)
    ensures
        cmds_list(x + y) == cmds_list(x) + cmds_list(y),
    decreases x.len(),
{
    if x.len() == 0 {
        assert(x + y =~= y);
        assert(cmds_list(x) + cmds_list(y) =~= cmds_list(y));
    } else {
        assert((x + y)[0] == x[0]);
        assert((x + y).drop_first() =~= x.drop_first() + y);
        law_list_commands_concatenate(x.drop_first(), y);
        assert(cmds_list(x + y) =~= cmds_list(x) + cmds_list(y));
    }
}

/// A single pair contributes its string value when its key is `command`,
/// and otherwise every command found inside its value.
pub proof fn law_one_pair_commands(k: HookValue, v: HookValue)
    ensures
        cmds_pairs(seq![(k, v)]) == match (k, v) {
            (HookValue::String(key), HookValue::String(c)) if key@ == "command"@ => seq![c@],
            _ => cmds(v),
        },
{
    let s = seq![(k, v)];
    assert(s.drop_first() =~= Seq::<(HookValue, HookValue)>::empty());
    assert(s[0] == (k, v));
    let e = Seq::<Seq<char>>::empty();
    assert(cmds_pairs(s.drop_first()) =~= e);
    assert(cmds_pairs(s) =~= match (k, v) {
        (HookValue::String(key), HookValue::String(c)) if key@ == "command"@ => seq![c@],
        _ => cmds(v),
    } + e);
}

/// Every pair of a mapping whose key is `command` and whose value is a string
/// has that string among the mapping's commands, wherever the pair stands.
pub proof fn law_every_command_collected(m: Seq<(HookValue, HookValue)>, i: int, c: String)
    requires
        0 <= i < m.len(),
        m[i].0 matches HookValue::String(key) && key@ == "command"@,
        m[i].1 == HookValue::String(c),
    ensures
        cmds_pairs(m).contains(c@),
{
    let x = m.take(i);
    let y = m.skip(i);
    assert(m =~= x + y);
    law_pair_commands_concatenate(x, y);
    assert(y =~= seq![m[i]] + y.drop_first());
    law_pair_commands_concatenate(seq![m[i]], y.drop_first());
    law_one_pair_commands(m[i].0, m[i].1);
    let before = cmds_pairs(x);
    assert(cmds_pairs(m)[before.len() as int] == c@);
}

/// Appends the commands of `value` to `commands`.
pub fn collect_command_values(value: &HookValue, commands: &mut Vec<String>)
    ensures
        string_views(final(commands)@) == string_views(old(commands)@) + cmds(*value),
    decreases value, 0int,
{
    match value {
        HookValue::Mapping(m) => {
            assert(m@.skip(0) =~= m@);
            collect_pairs(m, 0, commands)
        },
        HookValue::Sequence(s) => {
            assert(s@.skip(0) =~= s@);
            collect_list(s, 0, commands)
        },
        _ => {
            assert(string_views(commands@) =~= string_views(commands@) + cmds(*value));
        },
    }
}

fn collect_list(s: &Vec<HookValue>, from: usize, commands: &mut Vec<String>)
    requires
        from <= s@.len(),
    ensures
        string_views(final(commands)@) == string_views(old(commands)@) + cmds_list(s@.skip(from as int)),
    decreases s@, 1int, s@.len() - from,
{
    if from == s.len() {
        assert(string_views(commands@) =~= string_views(commands@) + cmds_list(s@.skip(from as int)));
        return;
    }
    assert(s@.skip(from as int)[0] == s@[from as int]);
    assert(s@.skip(from as int).drop_first() =~= s@.skip(from + 1));
    collect_command_values(&s[from], commands);
    collect_list(s, from + 1, commands);
}

fn collect_pairs(s: &Vec<(HookValue, HookValue)>, from: usize, commands: &mut Vec<String>)
    requires
        from <= s@.len(),
    ensures
        string_views(final(commands)@) == string_views(old(commands)@) + cmds_pairs(s@.skip(from as int)),
    decreases s@, 1int, s@.len() - from,
{
    if from == s.len() {
        assert(string_views(commands@) =~= string_views(commands@) + cmds_pairs(s@.skip(from as int)));
        return;
    }
    assert(s@.skip(from as int)[0] == s@[from as int]);
    assert(s@.skip(from as int).drop_first() =~= s@.skip(from + 1));
    let ghost before = string_views(commands@);
    let pushed = match (&s[from].0, &s[from].1) {
        (HookValue::String(k), HookValue::String(c)) => {
            if str_eq(k.as_str(), "command") {
                commands.push(c.clone());
                assert(string_views(commands@) =~= before + seq![c@]);
                true
            } else {
                false
            }
        },
        _ => false,
    };
    if !pushed {
        collect_command_values(&s[from].1, commands);
    }
    collect_pairs(s, from + 1, commands);
}

/// The commands of a hooks section.
pub fn collect_hook_commands(section: &HookValue) -> (r: Vec<String>)
    ensures
        string_views(r@) == cmds(*section),
{
    let mut commands: Vec<String> = Vec::new();
    collect_command_values(section, &mut commands);
    assert(string_views(commands@) =~= cmds(*section));
    commands
}

/// The value under the `hooks` key of a mapping.
pub open spec fn hooks_section_of(config: HookValue) -> Option<HookValue> {
    match config {
        HookValue::Mapping(m) => section_in(m@),
        _ => None,
    }
}

pub open spec fn section_in(m: Seq<(HookValue, HookValue)>) -> Option<HookValue>
    decreases m.len(),
{
    if m.len() == 0 {
        None
    } else if m[0].0 matches HookValue::String(k) && k@ == "hooks"@ {
        Some(m[0].1)
    } else {
        section_in(m.drop_first())
    }
}

/// The `hooks` section of a configuration.
pub fn get_hooks_section(config: &HookValue) -> (r: Option<&HookValue>)
    ensures
        match hooks_section_of(*config) {
            Some(v) => r matches Some(x) && *x == v,
            None => r is None,
        },
{
    let m = match config {
        HookValue::Mapping(m) => m,
        _ => {
            return None;
        },
    };
    let mut i: usize = 0;
    assert(m@.skip(0) =~= m@);
    while i < m.len()
        invariant
            i <= m@.len(),
            hooks_section_of(*config) == section_in(m@.skip(i as int)),
        decreases m@.len() - i,
    {
        assert(m@.skip(i as int)[0] == m@[i as int]);
        assert(m@.skip(i as int).drop_first() =~= m@.skip(i + 1));
        if let HookValue::String(k) = &m[i].0 {
            if str_eq(k.as_str(), "hooks") {
                return Some(&m[i].1);
            }
        }
        i = i + 1;
    }
    None
}

/// Characters stripped from both ends of a command word.
pub open spec fn is_token_edge(c: char) -> bool {
    c == '"' || c == '\'' || c == ';' || c == ')' || c == '(' || c == ','
}

pub open spec fn trim_edges_start(s: Seq<char>) -> Seq<char>
    decreases s.len(),
{
    if s.len() > 0 && is_token_edge(s[0]) {
        trim_edges_start(s.drop_first())
    } else {
        s
    }
}

pub open spec fn trim_edges_end(s: Seq<char>) -> Seq<char>
    decreases s.len(),
{
    if s.len() > 0 && is_token_edge(s.last()) {
        trim_edges_end(s.drop_last())
    } else {
        s
    }
}

/// A command word without quotes, parentheses, semicolons and commas around it.
pub open spec fn trim_edges(s: Seq<char>) -> Seq<char> {
    trim_edges_end(trim_edges_start(s))
}

/// A command word without quotes, parentheses, semicolons and commas around it.
pub fn trim_token(token: &[char]) -> (r: Vec<char>)
    ensures
        r@ == trim_edges(token@),
{
    let mut i: usize = 0;
    assert(token@.skip(0) =~= token@);
    while i < token.len() && (token[i] == '"' || token[i] == '\'' || token[i] == ';' || token[i]
        == ')' || token[i] == '(' || token[i] == ',')
        invariant
            i <= token@.len(),
            trim_edges_start(token@) == trim_edges_start(token@.skip(i as int)),
        decreases token@.len() - i,
    {
        assert(token@.skip(i as int)[0] == token@[i as int]);
        assert(token@.skip(i as int).drop_first() =~= token@.skip(i + 1));
        i = i + 1;
    }
    if i < token.len() {
        assert(token@.skip(i as int)[0] == token@[i as int]);
    }
    let t = slice_copy(token, i, token.len());
    assert(t@ =~= token@.skip(i as int));
    let mut k: usize = t.len();
    assert(t@.take(k as int) =~= t@);
    while k > 0 && (t[k - 1] == '"' || t[k - 1] == '\'' || t[k - 1] == ';' || t[k - 1] == ')'
        || t[k - 1] == '(' || t[k - 1] == ',')
        invariant
            k <= t@.len(),
            trim_edges_end(t@) == trim_edges_end(t@.take(k as int)),
        decreases k,
    {
        assert(t@.take(k as int).drop_last() =~= t@.take(k - 1));
        k = k - 1;
    }
    slice_copy(t.as_slice(), 0, k)
}

/// The path a marker such as `.cursor/` introduces in a word, if not empty.
pub open spec fn after_marker(t: Seq<char>, marker: Seq<char>) -> Option<Seq<char>> {
    match find_first(t, marker) {
        Some(p) => if trim_edges(t.skip(p + marker.len())).len() > 0 {
            Some(trim_edges(t.skip(p + marker.len())))
        } else {
            None
        },
        None => None,
    }
}

/// The word without one leading `./` or `.\`.
pub open spec fn without_dot_prefix(t: Seq<char>) -> Seq<char> {
    if starts_with(t, "./"@) {
        t.skip(2)
    } else if starts_with(t, ".\\"@) {
        t.skip(2)
    } else {
        t
    }
}

/// The script path a command word refers to: what follows `.cursor/` (or
/// `.cursor\`), else a word starting with `hooks/` or `scripts/` (either
/// separator, after an optional leading `./`).
pub open spec fn script_path_of(token: Seq<char>) -> Option<Seq<char>> {
    let t = trim_edges(token);
    if t.len() == 0 {
        None
    } else if after_marker(t, ".cursor/"@) is Some {
        after_marker(t, ".cursor/"@)
    } else if after_marker(t, ".cursor\\"@) is Some {
        after_marker(t, ".cursor\\"@)
    } else {
        let u = without_dot_prefix(t);
        if (starts_with(u, "hooks/"@) || starts_with(u, "scripts/"@) || starts_with(u, "hooks\\"@)
            || starts_with(u, "scripts\\"@)) && trim_edges(u).len() > 0 {
            Some(trim_edges(u))
        } else {
            None
        }
    }
}

fn path_after_marker(t: &[char], marker: &str) -> (r: Option<Vec<char>>)
    ensures
        match after_marker(t@, marker@) {
            Some(x) => r matches Some(y) && y@ == x,
            None => r is None,
        },
{
    let m = chars_of(marker);
    let tl = t.len();
    match find_first_of(t, m.as_slice()) {
        Some(p) => {
            let rest = slice_copy(t, p + m.len(), tl);
            assert(rest@ =~= t@.skip(p + m@.len()));
            let rel = trim_token(rest.as_slice());
            if rel.len() > 0 {
                Some(rel)
            } else {
                None
            }
        },
        None => None,
    }
}

/// The script path a command word refers to, if any.
pub fn extract_relative_path(token: &[char]) -> (r: Option<String>)
    ensures
        match script_path_of(token@) {
            Some(x) => r matches Some(y) && y@ == x,
            None => r is None,
        },
{
    let t = trim_token(token);
    if t.len() == 0 {
        return None;
    }
    if let Some(rel) = path_after_marker(t.as_slice(), ".cursor/") {
        return Some(string_of(rel.as_slice()));
    }
    if let Some(rel) = path_after_marker(t.as_slice(), ".cursor\\") {
        return Some(string_of(rel.as_slice()));
    }
    let n = t.len();
    proof {
        reveal_strlit("./");
        reveal_strlit(".\\");
    }
    let u = if has_prefix(t.as_slice(), chars_of("./").as_slice()) {
        slice_copy(t.as_slice(), 2, n)
    } else if has_prefix(t.as_slice(), chars_of(".\\").as_slice()) {
        slice_copy(t.as_slice(), 2, n)
    } else {
        t
    };
    assert(u@ =~= without_dot_prefix(trim_edges(token@)));
    if has_prefix(u.as_slice(), chars_of("hooks/").as_slice()) || has_prefix(
        u.as_slice(),
        chars_of("scripts/").as_slice(),
    ) || has_prefix(u.as_slice(), chars_of("hooks\\").as_slice()) || has_prefix(
        u.as_slice(),
        chars_of("scripts\\").as_slice(),
    ) {
        let rel = trim_token(u.as_slice());
        if rel.len() > 0 {
            return Some(string_of(rel.as_slice()));
        }
    }
    None
}

/// The first occurrences of each value, in order.
pub open spec fn distinct(s: Seq<Seq<char>>) -> Seq<Seq<char>>
    decreases s.len(),
{
    if s.len() == 0 {
        s
    } else {
        let d = distinct(s.drop_last());
        if d.contains(s.last()) {
            d
        } else {
            d.push(s.last())
        }
    }
}

/// Every referenced script is checked once: the list keeps the first
/// occurrence of each path, has no repeats, and holds every path referred to.
pub proof fn law_scripts_listed_once(s: Seq<Seq<char>>)
    ensures
        distinct(s).no_duplicates(),
        forall|x: Seq<char>| distinct(s).contains(x) <==> s.contains(x),
    decreases s.len(),
{
    if s.len() > 0 {
        let d = distinct(s.drop_last());
        law_scripts_listed_once(s.drop_last());
        assert forall|x: Seq<char>| s.contains(x) <==> (s.drop_last().contains(x) || x == s.last()) by {
            if s.contains(x) {
                let i = choose|i: int| 0 <= i < s.len() && s[i] == x;
                if i < s.len() - 1 {
                    assert(s.drop_last()[i] == x);
                }
            }
            if s.drop_last().contains(x) {
                let i = choose|i: int| 0 <= i < s.drop_last().len() && s.drop_last()[i] == x;
                assert(s[i] == x);
            }
            if x == s.last() {
                assert(s[s.len() - 1] == x);
            }
        }
        assert forall|x: Seq<char>| d.push(s.last()).contains(x) <==> (d.contains(x) || x == s.last()) by {
            if d.push(s.last()).contains(x) {
                let i = choose|i: int| 0 <= i < d.push(s.last()).len() && d.push(s.last())[i] == x;
                if i < d.len() {
                    assert(d[i] == x);
                }
            }
            if d.contains(x) {
                let i = choose|i: int| 0 <= i < d.len() && d[i] == x;
                assert(d.push(s.last())[i] == x);
            }
            if x == s.last() {
                assert(d.push(s.last())[d.len() as int] == x);
            }
        }
        if !d.contains(s.last()) {
            assert(distinct(s).no_duplicates()) by {
                let t = distinct(s);
                assert forall|i: int, j: int| 0 <= i < t.len() && 0 <= j < t.len() && i != j implies t[i]
                    != t[j] by {
                    if i == d.len() as int {
                        assert(t[j] == d[j]);
                        assert(d.contains(d[j]));
                    } else if j == d.len() as int {
                        assert(t[i] == d[i]);
                        assert(d.contains(d[i]));
                    } else {
                        assert(t[i] == d[i] && t[j] == d[j]);
                    }
                }
            }
        }
    }
}

/// The script paths the words of the commands refer to, in order, with repeats.
pub open spec fn script_refs(cmds: Seq<Seq<char>>) -> Seq<Seq<char>>
    decreases cmds.len(),
{
    if cmds.len() == 0 {
        Seq::empty()
    } else {
        script_refs(cmds.drop_last()) + refs_in_words(words(cmds.last()))
    }
}

pub open spec fn refs_in_words(ws: Seq<Seq<char>>) -> Seq<Seq<char>>
    decreases ws.len(),
{
    if ws.len() == 0 {
        Seq::empty()
    } else {
        refs_in_words(ws.drop_last()) + match script_path_of(ws.last()) {
            Some(p) => seq![p],
            None => Seq::empty(),
        }
    }
}

/// Adds `p` unless already present.
fn add_distinct(out: &mut Vec<String>, p: String)
    ensures
        string_views(final(out)@) == if string_views(old(out)@).contains(p@) {
            string_views(old(out)@)
        } else {
            string_views(old(out)@).push(p@)
        },
{
    let mut i: usize = 0;
    while i < out.len()
        invariant
            i <= out@.len(),
            forall|j: int| 0 <= j < i ==> out@[j]@ != p@,
        decreases out@.len() - i,
    {
        if str_eq(out[i].as_str(), p.as_str()) {
            assert(string_views(out@)[i as int] == p@);
            return;
        }
        i = i + 1;
    }
    assert(!string_views(out@).contains(p@)) by {
        if string_views(out@).contains(p@) {
            let j = choose|j: int| 0 <= j < out@.len() && string_views(out@)[j] == p@;
            assert(out@[j]@ == p@);
        }
    }
    let ghost before = string_views(out@);
    out.push(p);
    assert(string_views(out@) =~= before.push(p@));
}

proof fn lemma_distinct_append(a: Seq<Seq<char>>, x: Seq<char>)
    ensures
        distinct(a.push(x)) == if distinct(a).contains(x) {
            distinct(a)
        } else {
            distinct(a).push(x)
        },
{
    assert(a.push(x).drop_last() =~= a);
}

/// The distinct script paths the commands refer to, in order of first mention.
pub fn collect_hook_script_paths(commands: &Vec<String>) -> (r: Vec<String>)
    ensures
        string_views(r@) == distinct(script_refs(string_views(commands@))),
{
    let mut out: Vec<String> = Vec::new();
    let mut i: usize = 0;
    let ghost cs = string_views(commands@);
    assert(cs.take(0) =~= Seq::<Seq<char>>::empty());
    assert(string_views(out@) =~= distinct(Seq::<Seq<char>>::empty()));
    while i < commands.len()
        invariant
            i <= commands@.len(),
            cs == string_views(commands@),
            string_views(out@) == distinct(script_refs(cs.take(i as int))),
        decreases commands@.len() - i,
    {
        let cv = chars_of(commands[i].as_str());
        let ws = split_words(cv.as_slice());
        let ghost base = script_refs(cs.take(i as int));
        let mut j: usize = 0;
        assert(views(ws@).take(0) =~= Seq::<Seq<char>>::empty());
        assert(base + refs_in_words(views(ws@).take(0)) =~= base);
        while j < ws.len()
            invariant
                j <= ws@.len(),
                string_views(out@) == distinct(base + refs_in_words(views(ws@).take(j as int))),
            decreases ws@.len() - j,
        {
            let ghost prev = base + refs_in_words(views(ws@).take(j as int));
            assert(views(ws@).take(j + 1).drop_last() =~= views(ws@).take(j as int));
            assert(views(ws@).take(j + 1).last() == ws@[j as int]@);
            match extract_relative_path(ws[j].as_slice()) {
                Some(p) => {
                    proof {
                        lemma_distinct_append(prev, p@);
                        assert(base + refs_in_words(views(ws@).take(j + 1)) =~= prev.push(p@));
                    }
                    add_distinct(&mut out, p);
                },
                None => {
                    assert(base + refs_in_words(views(ws@).take(j + 1)) =~= prev);
                },
            }
            j = j + 1;
        }
        assert(views(ws@).take(ws@.len() as int) =~= views(ws@));
        assert(cs.take(i + 1).drop_last() =~= cs.take(i as int));
        assert(cs.take(i + 1).last() == commands@[i as int]@);
        assert(views(ws@) == words(cv@));
        i = i + 1;
    }
    assert(cs.take(commands@.len() as int) =~= cs);
    out
}

/// The directory hooks are resolved against: the parent of a `hooks` or
/// `scripts` directory, else the directory itself.
pub open spec fn hooks_root(dir: Seq<char>) -> Seq<char> {
    if file_name(dir) matches Some(n) && (n == "hooks"@ || n == "scripts"@) {
        match parent(dir) {
            Some(p) => p,
            None => dir,
        }
    } else {
        dir
    }
}

/// The directory hooks are resolved against.
pub fn hooks_root_dir(hooks_dir: &str) -> (r: String)
    ensures
        r@ == hooks_root(hooks_dir@),
{
    if let Some(n) = file_name_of(hooks_dir) {
        if str_eq(n.as_str(), "hooks") || str_eq(n.as_str(), "scripts") {
            return match parent_of(hooks_dir) {
                Some(p) => p,
                None => lit(hooks_dir),
            };
        }
    }
    lit(hooks_dir)
}

/// Where a hooks directory's configuration is.
pub fn hooks_config_path(hooks_dir: &str) -> (r: String)
    ensures
        r@ == join(hooks_root(hooks_dir@), "hooks.json"@),
{
    let root = hooks_root_dir(hooks_dir);
    join_paths(root.as_str(), "hooks.json")
}

/// The scripts a configuration refers to, under the hooks root, in order of
/// first mention; none when it has no `hooks` section.
pub open spec fn referenced_scripts_of(hooks_dir: Seq<char>, config: HookValue) -> Seq<Seq<char>> {
    match hooks_section_of(config) {
        Some(section) => distinct(script_refs(cmds(section))).map_values(
            |rel: Seq<char>| join(hooks_root(hooks_dir), rel),
        ),
        None => Seq::empty(),
    }
}

/// The script files a configuration refers to, to be checked for existence.
pub fn referenced_scripts(hooks_dir: &str, config: &HookValue) -> (r: Vec<String>)
    ensures
        string_views(r@) == referenced_scripts_of(hooks_dir@, *config),
{
    let section = match get_hooks_section(config) {
        Some(s) => s,
        None => {
            let r: Vec<String> = Vec::new();
            assert(string_views(r@) =~= referenced_scripts_of(hooks_dir@, *config));
            return r;
        },
    };
    let commands = collect_hook_commands(section);
    let rels = collect_hook_script_paths(&commands);
    let root = hooks_root_dir(hooks_dir);
    let mut r: Vec<String> = Vec::new();
    let mut i: usize = 0;
    let ghost target = referenced_scripts_of(hooks_dir@, *config);
    while i < rels.len()
        invariant
            i <= rels@.len(),
            root@ == hooks_root(hooks_dir@),
            target == string_views(rels@).map_values(|rel: Seq<char>| join(root@, rel)),
            string_views(r@) == target.take(i as int),
        decreases rels@.len() - i,
    {
        let p = join_paths(root.as_str(), rels[i].as_str());
        let ghost before = string_views(r@);
        r.push(p);
        assert(string_views(r@) =~= before.push(p@));
        assert(target.take(i + 1) =~= target.take(i as int).push(target[i as int]));
        i = i + 1;
    }
    assert(target.take(rels@.len() as int) =~= target);
    r
}

/// How reading a hooks configuration went.
pub enum ConfigRead {
    /// There is no configuration file
    Missing,
    /// It could not be read or parsed; the error says why
    Unreadable(ApsError),
    /// It was parsed
    Parsed(HookValue),
}

/// The scripts that are not files, in order.
pub open spec fn missing_scripts(scripts: Seq<Seq<char>>, is_file: Seq<bool>) -> Seq<Seq<char>>
    decreases scripts.len(),
{
    if scripts.len() == 0 {
        Seq::empty()
    } else {
        let rest = missing_scripts(scripts.drop_last(), is_file);
        if is_file[scripts.len() - 1] {
            rest
        } else {
            rest.push(scripts.last())
        }
    }
}

/// The warning text of a missing script.
pub open spec fn script_warning(p: Seq<char>) -> Seq<char> {
    "Hook script not found: "@ + p
}

/// Checks a hooks directory, given how reading its configuration went and
/// whether each script it refers to (`referenced_scripts`) is a file. Each
/// problem is a warning, or with `strict` the first problem is the error.
#[verifier::loop_isolation(false)]
pub fn validate_cursor_hooks(
    hooks_dir: &str,
    strict: bool,
    config: ConfigRead,
    is_file: &Vec<bool>,
) -> (r: Result<Vec<String>, ApsError>)
    requires
        config matches ConfigRead::Parsed(v) ==> is_file@.len() == referenced_scripts_of(
            hooks_dir@,
            v,
        ).len(),
    ensures
        ({
            let cfg = join(hooks_root(hooks_dir@), "hooks.json"@);
            match config {
                ConfigRead::Missing => if strict {
                    r matches Err(ApsError::MissingHooksConfig { path }) && path@ == cfg
                } else {
                    r matches Ok(w) && string_views(w@) == seq!["Hooks config not found at "@ + cfg]
                },
                ConfigRead::Unreadable(e) => if strict {
                    r == Err::<Vec<String>, ApsError>(e)
                } else {
                    r matches Ok(w) && string_views(w@) == seq![error_text(e)]
                },
                ConfigRead::Parsed(v) => match hooks_section_of(v) {
                    None => if strict {
                        r matches Err(ApsError::MissingHooksSection { path }) && path@ == cfg
                    } else {
                        r matches Ok(w) && string_views(w@) == seq![
                            "Hooks config at "@ + cfg + " is missing a 'hooks' section"@,
                        ]
                    },
                    Some(_) => {
                        let missing = missing_scripts(referenced_scripts_of(hooks_dir@, v), is_file@);
                        if strict {
                            if missing.len() == 0 {
                                r matches Ok(w) && w@.len() == 0
                            } else {
                                r matches Err(ApsError::HookScriptNotFound { path }) && path@
                                    == missing[0]
                            }
                        } else {
                            r matches Ok(w) && string_views(w@) == missing.map_values(
                                |p: Seq<char>| script_warning(p),
                            )
                        }
                    },
                },
            }
        }),
{
    let cfg = hooks_config_path(hooks_dir);
    let ghost given = config;
    match config {
        ConfigRead::Missing => {
            let e = ApsError::MissingHooksConfig { path: cfg };
            warn_or_error(strict, e)
        },
        ConfigRead::Unreadable(e) => warn_or_error(strict, e),
        ConfigRead::Parsed(v) => {
            if get_hooks_section(&v).is_none() {
                let e = ApsError::MissingHooksSection { path: cfg };
                return warn_or_error(strict, e);
            }
            let scripts = referenced_scripts(hooks_dir, &v);
            let ghost sv = string_views(scripts@);
            let mut warnings: Vec<String> = Vec::new();
            let mut i: usize = 0;
            while i < scripts.len()
                invariant
                    i <= scripts@.len(),
                    sv == string_views(scripts@),
                    sv == referenced_scripts_of(hooks_dir@, v),
                    given == ConfigRead::Parsed(v),
                    hooks_section_of(v) is Some,
                    is_file@.len() == scripts@.len(),
                    !strict ==> string_views(warnings@) == missing_scripts(sv.take(i as int), is_file@).map_values(
                        |p: Seq<char>| script_warning(p),
                    ),
                    strict ==> missing_scripts(sv.take(i as int), is_file@).len() == 0,
                    strict ==> warnings@.len() == 0,
                decreases scripts@.len() - i,
            {
                assert(sv.take(i + 1).drop_last() =~= sv.take(i as int));
                assert(sv.take(i + 1).last() == scripts@[i as int]@);
                if !is_file[i] {
                    if strict {
                        proof {
                            lemma_missing_prefix(sv, is_file@, i as int);
                            assert(hooks_section_of(v) is Some);
                            assert(missing_scripts(referenced_scripts_of(hooks_dir@, v), is_file@)[0] == scripts@[i as int]@);
                        }
                        return Err(ApsError::HookScriptNotFound { path: scripts[i].clone() });
                    }
                    let w = crate::error::cat2("Hook script not found: ", scripts[i].as_str());
                    let ghost before = string_views(warnings@);
                    warnings.push(w);
                    assert(string_views(warnings@) =~= before.push(script_warning(sv[i as int])));
                    assert(missing_scripts(sv.take(i + 1), is_file@).map_values(
                        |p: Seq<char>| script_warning(p),
                    ) =~= missing_scripts(sv.take(i as int), is_file@).map_values(
                        |p: Seq<char>| script_warning(p),
                    ).push(script_warning(sv[i as int])));
                } else {
                    assert(missing_scripts(sv.take(i + 1), is_file@) == missing_scripts(sv.take(i as int), is_file@));
                }
                i = i + 1;
            }
            assert(sv.take(scripts@.len() as int) =~= sv);
            Ok(warnings)
        },
    }
}

/// When scripts before `i` are all files and script `i` is not, it is the
/// first missing one.
proof fn lemma_missing_prefix(scripts: Seq<Seq<char>>, is_file: Seq<bool>, i: int)
    requires
        0 <= i < scripts.len(),
        scripts.len() <= is_file.len(),
        missing_scripts(scripts.take(i), is_file).len() == 0,
        !is_file[i],
    ensures
        missing_scripts(scripts, is_file).len() > 0,
        missing_scripts(scripts, is_file)[0] == scripts[i],
    decreases scripts.len(),
{
    if scripts.len() == i + 1 {
        assert(scripts.drop_last() =~= scripts.take(i));
    } else {
        assert(scripts.drop_last().take(i) =~= scripts.take(i));
        lemma_missing_prefix(scripts.drop_last(), is_file, i);
    }
}

/// A problem as a warning, or with `strict` as the error.
fn warn_or_error(strict: bool, error: ApsError) -> (r: Result<Vec<String>, ApsError>)
    ensures
        strict ==> r == Err::<Vec<String>, ApsError>(error),
        !strict ==> (r matches Ok(w) && string_views(w@) == seq![error_text(error)]),
{
    if strict {
        return Err(error);
    }
    let mut w: Vec<String> = Vec::new();
    w.push(error.message());
    assert(string_views(w@) =~= seq![error_text(error)]);
    Ok(w)
}

} // verus!
