//! The scheme catalog: color files of `token value` lines, and the
//! name / flavor / mode listing rules.

use vstd::prelude::*;
use crate::colormap::ColorMap;
use crate::colormap::Entries;
use crate::colormap::has_key;
use crate::colormap::keys_unique;
use crate::text::str_eq;
use vstd::string::StrSliceExecFns;
use vstd::string::StringExecFns;

verus! {

/// The whitespace that separates fields on a line: the Unicode
/// White_Space class, as `str::split_whitespace` splits on.
pub open spec fn is_ws(c: char) -> bool {
    ||| 0x9 <= c as u32 <= 0xd
    ||| c as u32 == 0x20
    ||| c as u32 == 0x85
    ||| c as u32 == 0xa0
    ||| c as u32 == 0x1680
    ||| 0x2000 <= c as u32 <= 0x200a
    ||| c as u32 == 0x2028
    ||| c as u32 == 0x2029
    ||| c as u32 == 0x202f
    ||| c as u32 == 0x205f
    ||| c as u32 == 0x3000
}

/// Tests the field-separator class.
fn is_ws_char(c: char) -> (r: bool)
    ensures
        r == is_ws(c),
{
    let u = c as u32;
    (0x9 <= u && u <= 0xd) || u == 0x20 || u == 0x85 || u == 0xa0 || u == 0x1680 || (0x2000 <= u
        && u <= 0x200a) || u == 0x2028 || u == 0x2029 || u == 0x202f || u == 0x205f || u == 0x3000
}

/// The first newline at or after a position.
pub open spec fn find_nl(s: Seq<char>, i: int) -> Option<int>
    decreases s.len() - i,
{
    if i < 0 || i >= s.len() {
        None
    } else if s[i] == '\n' {
        Some(i)
    } else {
        find_nl(s, i + 1)
    }
}

/// A line without its trailing carriage return.
pub open spec fn strip_cr(l: Seq<char>) -> Seq<char> {
    if l.len() > 0 && l[l.len() - 1] == '\r' {
        l.take(l.len() - 1)
    } else {
        l
    }
}

/// The lines of a text, as `str::lines` yields them.
pub open spec fn spec_lines(s: Seq<char>) -> Seq<Seq<char>>
    decreases s.len(),
{
    if s.len() == 0 {
        Seq::empty()
    } else {
        match find_nl(s, 0) {
            None => seq![strip_cr(s)],
            Some(i) => if 0 <= i && i + 1 <= s.len() {
                seq![strip_cr(s.take(i))] + spec_lines(s.skip(i + 1))
            } else {
                seq![strip_cr(s)]
            },
        }
    }
}

/// The first non-whitespace position at or after `i`.
pub open spec fn skip_ws_idx(l: Seq<char>, i: int) -> int
    decreases l.len() - i,
{
    if i < 0 || i >= l.len() {
        l.len() as int
    } else if is_ws(l[i]) {
        skip_ws_idx(l, i + 1)
    } else {
        i
    }
}

/// The end of the field that starts at `i`.
pub open spec fn token_end(l: Seq<char>, i: int) -> int
    decreases l.len() - i,
{
    if i < 0 || i >= l.len() {
        l.len() as int
    } else if is_ws(l[i]) {
        i
    } else {
        token_end(l, i + 1)
    }
}

/// The first two whitespace-separated fields of a line, if it has two.
pub open spec fn line_entry(l: Seq<char>) -> Option<(Seq<char>, Seq<char>)> {
    let a = skip_ws_idx(l, 0);
    if a == l.len() {
        None
    } else {
        let b = token_end(l, a);
        let c = skip_ws_idx(l, b);
        if c == l.len() {
            None
        } else {
            let d = token_end(l, c);
            Some((l.subrange(a, b), l.subrange(c, d)))
        }
    }
}

/// Insertion into an entry list: an existing token keeps its place,
/// a new token is appended.
pub open spec fn entries_insert(es: Entries, k: Seq<char>, v: Seq<char>) -> Entries
    decreases es.len(),
{
    if es.len() == 0 {
        seq![(k, v)]
    } else if es[0].0 == k {
        seq![(k, v)] + es.skip(1)
    } else {
        seq![es[0]] + entries_insert(es.skip(1), k, v)
    }
}

/// The color entries after folding a text's lines over an accumulator.
pub open spec fn fold_colors(ls: Seq<Seq<char>>, acc: Entries) -> Entries
    decreases ls.len(),
{
    if ls.len() == 0 {
        acc
    } else {
        fold_colors(
            ls.skip(1),
            match line_entry(ls[0]) {
                None => acc,
                Some(e) => entries_insert(acc, e.0, e.1),
            },
        )
    }
}

/// The mapping a catalog color file denotes.
pub open spec fn spec_parse_colors(s: Seq<char>) -> Entries {
    fold_colors(spec_lines(s), Seq::empty())
}

pub proof fn lemma_entries_insert(es: Entries, k: Seq<char>, v: Seq<char>)
    requires
        keys_unique(es),
    ensures
        !has_key(es, k) ==> entries_insert(es, k, v) == es.push((k, v)),
        forall|idx: int|
            0 <= idx < es.len() && es[idx].0 == k ==> entries_insert(es, k, v) == es.update(
                idx,
                (k, v),
            ),
    decreases es.len(),
{
    if es.len() == 0 {
        assert(entries_insert(es, k, v) =~= es.push((k, v)));
    } else if es[0].0 == k {
        assert(entries_insert(es, k, v) =~= es.update(0, (k, v)));
        assert(has_key(es, k)) by {
            assert(es[0].0 == k);
        }
        assert forall|idx: int| 0 <= idx < es.len() && es[idx].0 == k implies entries_insert(
            es,
            k,
            v,
        ) == es.update(idx, (k, v)) by {
            if idx != 0 {
                assert(es[0].0 != es[idx].0);
            }
        }
    } else {
        assert(keys_unique(es.skip(1))) by {
            assert forall|a: int, b: int| 0 <= a < b < es.skip(1).len() implies es.skip(1)[a].0
                != es.skip(1)[b].0 by {
                assert(es.skip(1)[a] == es[a + 1]);
                assert(es.skip(1)[b] == es[b + 1]);
            }
        }
        lemma_entries_insert(es.skip(1), k, v);
        if !has_key(es, k) {
            assert(!has_key(es.skip(1), k)) by {
                if has_key(es.skip(1), k) {
                    let i = choose|i: int| 0 <= i < es.skip(1).len() && es.skip(1)[i].0 == k;
                    assert(es[i + 1].0 == k);
                }
            }
            assert(entries_insert(es, k, v) =~= es.push((k, v)));
        }
        assert forall|idx: int| 0 <= idx < es.len() && es[idx].0 == k implies entries_insert(
            es,
            k,
            v,
        ) == es.update(idx, (k, v)) by {
            assert(idx != 0);
            assert(es.skip(1)[idx - 1].0 == k);
            assert(entries_insert(es.skip(1), k, v) == es.skip(1).update(idx - 1, (k, v)));
            assert(seq![es[0]] + es.skip(1).update(idx - 1, (k, v)) =~= es.update(idx, (k, v)));
        }
    }
}

/// Finds the next newline, as the spec does.
fn find_nl_at(t: &str, i: usize) -> (r: Option<usize>)
    ensures
        match r {
            Some(q) => find_nl(t@, i as int) == Some(q as int) && i <= q < t@.len(),
            None => find_nl(t@, i as int) == None::<int>,
        },
{
    let tl = t.unicode_len();
    if i >= tl {
        return None;
    }
    let mut j = i;
    loop
        invariant
            tl == t@.len(),
            i <= j <= tl,
            find_nl(t@, i as int) == find_nl(t@, j as int),
        decreases tl - j,
    {
        if j == tl {
            return None;
        }
        let c = t.get_char(j);
        if c == '\n' {
            proof {
                assert(find_nl(t@, j as int) == Some(j as int));
            }
            return Some(j);
        }
        j = j + 1;
    }
}

/// Splits a text into its lines.
fn split_lines(t: &str) -> (r: Vec<String>)
    ensures
        r@.map_values(|l: String| l@) == spec_lines(t@),
{
    let mut out: Vec<String> = Vec::new();
    let tl = t.unicode_len();
    let mut i: usize = 0;
    proof {
        assert(t@.skip(0) =~= t@);
    }
    loop
        invariant
            tl == t@.len(),
            i <= tl,
            i < tl || i == tl,
            spec_lines(t@) == out@.map_values(|l: String| l@) + spec_lines(t@.skip(i as int)),
        decreases tl - i + 1,
    {
        if i == tl {
            proof {
                assert(t@.skip(i as int).len() == 0);
                assert(spec_lines(t@.skip(i as int)) =~= Seq::<Seq<char>>::empty());
                assert(out@.map_values(|l: String| l@) + Seq::<Seq<char>>::empty() =~= out@.map_values(
                    |l: String| l@,
                ));
            }
            return out;
        }
        let rest_nl = find_nl_at(t, i);
        let ghost rem = t@.skip(i as int);
        match rest_nl {
            None => {
                // the final line runs to the end of the text
                let mut end = tl;
                if t.get_char(tl - 1) == '\r' {
                    end = tl - 1;
                }
                let line = t.substring_char(i, end).to_owned();
                proof {
                    assert(rem.len() > 0);
                    assert(find_nl(rem, 0) == None::<int>) by {
                        lemma_find_nl_shift(t@, i as int, 0);
                    }
                    assert(rem[rem.len() - 1] == t@[tl - 1]);
                    assert(strip_cr(rem) =~= line@);
                    assert(spec_lines(rem) == seq![strip_cr(rem)]);
                    assert(out@.map_values(|l: String| l@).push(line@) =~= out@.map_values(
                        |l: String| l@,
                    ) + seq![line@]);
                    assert((out@ + seq![line]).map_values(|l: String| l@) =~= out@.map_values(
                        |l: String| l@,
                    ).push(line@));
                }
                out.push(line);
                proof {
                    assert(spec_lines(t@) =~= out@.map_values(|l: String| l@));
                }
                return out;
            },
            Some(q) => {
                let mut end = q;
                if q > i && t.get_char(q - 1) == '\r' {
                    end = q - 1;
                }
                let line = t.substring_char(i, end).to_owned();
                proof {
                    assert(rem.len() > 0);
                    assert(find_nl(rem, 0) == Some(q - i)) by {
                        lemma_find_nl_shift(t@, i as int, 0);
                    }
                    let li = q - i;
                    assert(rem.take(li) =~= t@.subrange(i as int, q as int));
                    assert(strip_cr(rem.take(li)) =~= line@) by {
                        if q > i && t@[q - 1] == '\r' {
                            assert(rem.take(li)[li - 1] == t@[q - 1]);
                            assert(rem.take(li).take(li - 1) =~= t@.subrange(
                                i as int,
                                end as int,
                            ));
                        }
                    }
                    assert(rem.skip(li + 1) =~= t@.skip(q + 1));
                    assert(spec_lines(rem) == seq![strip_cr(rem.take(li))] + spec_lines(
                        rem.skip(li + 1),
                    ));
                    assert((out@ + seq![line]).map_values(|l: String| l@) =~= out@.map_values(
                        |l: String| l@,
                    ).push(line@));
                    assert(out@.map_values(|l: String| l@).push(line@) + spec_lines(
                        t@.skip(q + 1),
                    ) =~= out@.map_values(|l: String| l@) + spec_lines(rem));
                }
                out.push(line);
                i = q + 1;
            },
        }
    }
}

proof fn lemma_find_nl_shift(t: Seq<char>, base: int, off: int)
    requires
        0 <= base <= t.len(),
        0 <= off,
    ensures
        find_nl(t, base + off) == match find_nl(t.skip(base), off) {
            None => None::<int>,
            Some(q) => Some(q + base),
        },
    decreases t.len() - base - off,
{
    let rem = t.skip(base);
    if base + off >= t.len() {
    } else {
        assert(rem[off] == t[base + off]);
        if t[base + off] == '\n' {
        } else {
            lemma_find_nl_shift(t, base, off + 1);
        }
    }
}

/// Finds the first non-whitespace position at or after `i`.
fn skip_ws_at(l: &str, i: usize) -> (r: usize)
    requires
        i <= l@.len(),
    ensures
        r as int == skip_ws_idx(l@, i as int),
        i <= r <= l@.len(),
{
    let ll = l.unicode_len();
    let mut j = i;
    loop
        invariant
            ll == l@.len(),
            i <= j <= ll,
            skip_ws_idx(l@, i as int) == skip_ws_idx(l@, j as int),
        decreases ll - j,
    {
        if j == ll {
            return j;
        }
        let c = l.get_char(j);
        if !is_ws_char(c) {
            return j;
        }
        j = j + 1;
    }
}

/// Finds the end of the field that starts at `i`.
fn token_end_at(l: &str, i: usize) -> (r: usize)
    requires
        i <= l@.len(),
    ensures
        r as int == token_end(l@, i as int),
        i <= r <= l@.len(),
{
    let ll = l.unicode_len();
    let mut j = i;
    loop
        invariant
            ll == l@.len(),
            i <= j <= ll,
            token_end(l@, i as int) == token_end(l@, j as int),
        decreases ll - j,
    {
        if j == ll {
            return j;
        }
        let c = l.get_char(j);
        if is_ws_char(c) {
            return j;
        }
        j = j + 1;
    }
}

/// The first two fields of a line, if it has at least two.
fn first_two_fields(l: &str) -> (r: Option<(String, String)>)
    ensures
        match r {
            Some(p) => line_entry(l@) == Some((p.0@, p.1@)),
            None => line_entry(l@) == None::<(Seq<char>, Seq<char>)>,
        },
{
    let ll = l.unicode_len();
    let a = skip_ws_at(l, 0);
    if a == ll {
        return None;
    }
    let b = token_end_at(l, a);
    let c = skip_ws_at(l, b);
    if c == ll {
        return None;
    }
    let d = token_end_at(l, c);
    let k = l.substring_char(a, b).to_owned();
    let v = l.substring_char(c, d).to_owned();
    Some((k, v))
}

/// Parses a catalog color file: one `token value` assignment per
/// non-empty line; lines with fewer than two fields are skipped;
/// later assignments to a token replace earlier ones.
pub fn parse_colors(content: &str) -> (r: ColorMap)
    ensures
        r.wf(),
        r.view() == spec_parse_colors(content@),
{
    let lines = split_lines(content);
    let mut cm = ColorMap::new();
    let n = lines.len();
    let ghost lv = lines@.map_values(|l: String| l@);
    let mut i: usize = 0;
    proof {
        assert(lv.skip(0) =~= lv);
    }
    while i < n
        invariant
            n == lv.len(),
            lv == lines@.map_values(|l: String| l@),
            i <= n,
            cm.wf(),
            spec_parse_colors(content@) == fold_colors(lv.skip(i as int), cm.view()),
        decreases n - i,
    {
        let ghost pre_view = cm.view();
        match first_two_fields(lines[i].as_str()) {
            None => {
            },
            Some((k, v)) => {
                let ghost gk = k@;
                let ghost gv = v@;
                proof {
                    lemma_entries_insert(cm.view(), gk, gv);
                    crate::colormap::lemma_lookup_iff_has_key(cm.view(), gk);
                }
                cm.insert(k, v);
                proof {
                    if has_key(pre_view, gk) {
                        let idx = choose|idx: int|
                            0 <= idx < pre_view.len() && pre_view[idx].0 == gk;
                        assert(cm.view() == pre_view.update(idx, (gk, gv)));
                        assert(entries_insert(pre_view, gk, gv) == pre_view.update(
                            idx,
                            (gk, gv),
                        ));
                    } else {
                        assert(cm.view() == pre_view.push((gk, gv)));
                    }
                    assert(cm.view() == entries_insert(pre_view, gk, gv));
                }
            },
        }
        proof {
            assert(lv.skip(i as int)[0] == lv[i as int]);
            assert(lv.skip(i as int).skip(1) =~= lv.skip(i as int + 1));
            assert(fold_colors(lv.skip(i as int), pre_view) == fold_colors(
                lv.skip(i as int + 1),
                cm.view(),
            ));
        }
        i = i + 1;
    }
    proof {
        assert(lv.skip(n as int).len() == 0);
    }
    cm
}

/// Resolving a catalog entry is a pure function of the backing file's
/// content: two reads of an unchanged file yield the same mapping.
pub proof fn lemma_resolve_colors_deterministic(c1: Seq<char>, c2: Seq<char>)
    requires
        c1 == c2,
    ensures
        spec_parse_colors(c1) == spec_parse_colors(c2),
{
}

/// The scheme names: the catalog's subdirectories plus `dynamic`.
pub fn scheme_names(subdirs: &Vec<String>) -> (r: Vec<String>)
    ensures
        r@.map_values(|s: String| s@) == subdirs@.map_values(|s: String| s@).push("dynamic"@),
{
    let mut out: Vec<String> = Vec::new();
    let n = subdirs.len();
    let mut i: usize = 0;
    while i < n
        invariant
            n == subdirs@.len(),
            i <= n,
            out@.len() == i,
            forall|j: int| 0 <= j < i ==> out@[j]@ == subdirs@[j]@,
        decreases n - i,
    {
        out.push(subdirs[i].clone());
        i = i + 1;
    }
    out.push(String::from_str("dynamic"));
    proof {
        let f = |s: String| s@;
        let lhs = out@.map_values(f);
        let rhs = subdirs@.map_values(f).push("dynamic"@);
        assert(lhs =~= rhs) by {
            assert(lhs.len() == rhs.len());
            assert forall|j: int| 0 <= j < lhs.len() implies lhs[j] == rhs[j] by {
                assert(lhs[j] == out@[j]@);
                if j < n {
                    assert(rhs[j] == subdirs@[j]@);
                } else {
                    assert(out@[j]@ == "dynamic"@);
                }
            }
        }
    }
    out
}

/// The flavors of a scheme: the scheme directory's subdirectories,
/// and the empty list for the synthetic `dynamic` scheme, which has
/// no directory of its own.
pub fn scheme_flavors(name: &str, subdirs: Vec<String>) -> (r: Vec<String>)
    ensures
        name@ == "dynamic"@ ==> r@.len() == 0,
        name@ != "dynamic"@ ==> r == subdirs,
{
    if str_eq(name, "dynamic") {
        Vec::new()
    } else {
        subdirs
    }
}

/// The modes of a flavor: `light` and `dark` for `dynamic`, else the
/// stems of the flavor directory's files.
pub fn scheme_modes(name: &str, stems: Vec<String>) -> (r: Vec<String>)
    ensures
        name@ == "dynamic"@ ==> r@.len() == 2 && r@[0]@ == "light"@ && r@[1]@ == "dark"@,
        name@ != "dynamic"@ ==> r == stems,
{
    if str_eq(name, "dynamic") {
        let mut out: Vec<String> = Vec::new();
        out.push(String::from_str("light"));
        out.push(String::from_str("dark"));
        out
    } else {
        stems
    }
}

/// The last dot in a name.
pub open spec fn last_dot(s: Seq<char>) -> Option<int>
    decreases s.len(),
{
    if s.len() == 0 {
        None
    } else if s[s.len() - 1] == '.' {
        Some(s.len() - 1)
    } else {
        last_dot(s.take(s.len() - 1))
    }
}

/// A file name without its extension.
pub open spec fn spec_stem(s: Seq<char>) -> Seq<char> {
    match last_dot(s) {
        None => s,
        Some(i) => if i == 0 {
            s
        } else {
            s.take(i)
        },
    }
}

/// The stem of a file name: the part before the last dot, except that
/// a lone leading dot stays.
pub fn file_stem(name: &str) -> (r: String)
    ensures
        r@ == spec_stem(name@),
{
    let n = name.unicode_len();
    let mut j = n;
    proof {
        assert(name@.take(n as int) =~= name@);
    }
    loop
        invariant
            n == name@.len(),
            j <= n,
            last_dot(name@) == last_dot(name@.take(j as int)),
        decreases j,
    {
        if j == 0 {
            proof {
                assert(name@.take(0).len() == 0);
            }
            return name.to_owned();
        }
        let c = name.get_char(j - 1);
        proof {
            assert(name@.take(j as int)[j - 1] == name@[j - 1]);
            assert(name@.take(j as int).take(j as int - 1) =~= name@.take(j as int - 1));
        }
        if c == '.' {
            if j == 1 {
                return name.to_owned();
            }
            let s = name.substring_char(0, j - 1).to_owned();
            proof {
                assert(name@.take(j as int - 1) =~= name@.subrange(0, j as int - 1));
            }
            return s;
        }
        j = j - 1;
    }
}

/// The catalog file that backs a (name, flavor, mode) triple.
pub fn color_file_path(data_dir: &str, name: &str, flavor: &str, mode: &str) -> (r: String)
    ensures
        r@ == data_dir@ + "/"@ + name@ + "/"@ + flavor@ + "/"@ + mode@ + ".txt"@,
{
    let mut out = data_dir.to_owned();
    out.append("/");
    out.append(name);
    out.append("/");
    out.append(flavor);
    out.append("/");
    out.append(mode);
    out.append(".txt");
    out
}

/// Keeps the preferred mode when the flavor offers it, else falls back
/// to the flavor's first mode.
pub fn choose_mode(modes: &Vec<String>, preferred: &str) -> (r: Option<String>)
    ensures
        match r {
            Some(m) => (exists|i: int| 0 <= i < modes@.len() && modes@[i]@ == preferred@) ==> m@
                == preferred@,
            None => modes@.len() == 0,
        },
        modes@.len() > 0 ==> r is Some,
        match r {
            Some(m) => !(exists|i: int| 0 <= i < modes@.len() && modes@[i]@ == preferred@)
                ==> modes@.len() > 0 && m@ == modes@[0]@,
            None => true,
        },
{
    let n = modes.len();
    let mut i: usize = 0;
    while i < n
        invariant
            n == modes@.len(),
            i <= n,
            forall|j: int| 0 <= j < i ==> modes@[j]@ != preferred@,
        decreases n - i,
    {
        if str_eq(modes[i].as_str(), preferred) {
            proof {
                assert(modes@[i as int]@ == preferred@);
            }
            return Some(preferred.to_owned());
        }
        i = i + 1;
    }
    if n > 0 {
        return Some(modes[0].clone());
    }
    None
}

} // verus!
