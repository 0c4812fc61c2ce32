//! The template engine: `{{ $token }}` substitution, plain text
//! replacement, and the generated variable file.

use vstd::prelude::*;
use crate::colormap::ColorMap;
use crate::colormap::Entries;
use crate::colormap::map_lookup;
use crate::text::expect;
use crate::text::expect_at;
use crate::text::push_char;
use vstd::string::StrSliceExecFns;
use vstd::string::StringExecFns;

verus! {

/// A character a token may contain.
pub open spec fn is_token_char(c: char) -> bool {
    c != ' ' && c != '{' && c != '}'
}

/// The end of the token run that starts at `i`.
pub open spec fn token_run(t: Seq<char>, i: int) -> int
    decreases t.len() - i,
{
    if i < 0 || i >= t.len() {
        t.len() as int
    } else if is_token_char(t[i]) {
        token_run(t, i + 1)
    } else {
        i
    }
}

/// The placeholder starting at `i`, if the text there reads
/// `{{ $token }}` with a nonempty token.
pub open spec fn placeholder_at(t: Seq<char>, i: int) -> Option<(Seq<char>, int)> {
    match expect(t, i, "{{ $"@) {
        None => None,
        Some(j) => {
            let k = token_run(t, j);
            if k > j && expect(t, k, " }}"@) is Some {
                Some((t.subrange(j, k), k + 3))
            } else {
                None
            }
        },
    }
}

/// The text a token renders as: its color value, or the fallback.
pub open spec fn subst(m: Entries, tok: Seq<char>, hash: bool) -> Seq<char> {
    let val = match map_lookup(m, tok) {
        Some(v) => v,
        None => "000000"@,
    };
    if hash {
        seq!['#'] + val
    } else {
        val
    }
}

/// The rendered text from position `i` on.
pub open spec fn spec_render_from(t: Seq<char>, i: int, m: Entries, hash: bool) -> Seq<char>
    decreases t.len() - i,
{
    if i < 0 || i >= t.len() {
        Seq::empty()
    } else {
        match placeholder_at(t, i) {
            Some(p) => if i < p.1 <= t.len() {
                subst(m, p.0, hash) + spec_render_from(t, p.1, m, hash)
            } else {
                seq![t[i]] + spec_render_from(t, i + 1, m, hash)
            },
            None => seq![t[i]] + spec_render_from(t, i + 1, m, hash),
        }
    }
}

/// The fully rendered text.
pub open spec fn spec_render(t: Seq<char>, m: Entries, hash: bool) -> Seq<char> {
    spec_render_from(t, 0, m, hash)
}

/// Finds the end of the token run that starts at `i`.
fn token_run_at(t: &str, i: usize) -> (r: usize)
    requires
        i <= t@.len(),
    ensures
        r as int == token_run(t@, i as int),
        i <= r <= t@.len(),
{
    let tl = t.unicode_len();
    let mut j = i;
    loop
        invariant
            tl == t@.len(),
            i <= j <= tl,
            token_run(t@, i as int) == token_run(t@, j as int),
        decreases tl - j,
    {
        if j == tl {
            return j;
        }
        let c = t.get_char(j);
        if c == ' ' || c == '{' || c == '}' {
            return j;
        }
        j = j + 1;
    }
}

/// Recognizes the placeholder starting at `i`, if any.
fn placeholder_lookup(t: &str, i: usize) -> (r: Option<(String, usize)>)
    requires
        i <= t@.len(),
    ensures
        match r {
            Some(p) => placeholder_at(t@, i as int) == Some((p.0@, p.1 as int)) && i < p.1
                <= t@.len(),
            None => placeholder_at(t@, i as int) == None::<(Seq<char>, int)>,
        },
{
    proof {
        reveal_strlit("{{ $");
        reveal_strlit(" }}");
    }
    let j = match expect_at(t, i, "{{ $") {
        None => {
            return None;
        },
        Some(j) => j,
    };
    let k = token_run_at(t, j);
    if k == j {
        return None;
    }
    let end = match expect_at(t, k, " }}") {
        None => {
            return None;
        },
        Some(end) => end,
    };
    let tok = t.substring_char(j, k).to_owned();
    Some((tok, end))
}

/// Renders a template against a color map. Every `{{ $token }}`
/// becomes the token's color, `000000` when the map lacks it, with a
/// leading `#` when `hash` is set; everything else passes through.
pub fn render_template(t: &str, colors: &ColorMap, hash: bool) -> (r: String)
    ensures
        r@ == spec_render(t@, colors.view(), hash),
{
    let tl = t.unicode_len();
    let mut out = String::new();
    let mut i: usize = 0;
    let ghost m = colors.view();
    loop
        invariant
            tl == t@.len(),
            i <= tl,
            m == colors.view(),
            spec_render(t@, m, hash) == out@ + spec_render_from(t@, i as int, m, hash),
        decreases tl - i,
    {
        if i == tl {
            proof {
                assert(out@ + spec_render_from(t@, i as int, m, hash) =~= out@);
            }
            return out;
        }
        match placeholder_lookup(t, i) {
            Some((tok, end)) => {
                let ghost out0 = out@;
                if hash {
                    push_char(&mut out, '#');
                }
                match colors.get(tok.as_str()) {
                    Some(v) => {
                        out.append(v.as_str());
                    },
                    None => {
                        out.append("000000");
                    },
                }
                proof {
                    assert(out@ =~= out0 + subst(m, tok@, hash));
                    assert(spec_render_from(t@, i as int, m, hash) == subst(m, tok@, hash)
                        + spec_render_from(t@, end as int, m, hash));
                    assert(out@ + spec_render_from(t@, end as int, m, hash) =~= spec_render(
                        t@,
                        m,
                        hash,
                    ));
                }
                i = end;
            },
            None => {
                let c = t.get_char(i);
                proof {
                    assert(spec_render_from(t@, i as int, m, hash) == seq![t@[i as int]]
                        + spec_render_from(t@, i as int + 1, m, hash));
                }
                push_char(&mut out, c);
                proof {
                    assert(out@ + spec_render_from(t@, i as int + 1, m, hash) =~= spec_render(
                        t@,
                        m,
                        hash,
                    ));
                }
                i = i + 1;
            },
        }
    }
}

/// Rendering is a pure function of the template and the color map:
/// rendering twice with unchanged inputs gives byte-identical output.
pub proof fn lemma_render_deterministic(
    t1: Seq<char>,
    t2: Seq<char>,
    m1: Entries,
    m2: Entries,
    hash: bool,
)
    requires
        t1 == t2,
        m1 == m2,
    ensures
        spec_render(t1, m1, hash) == spec_render(t2, m2, hash),
{
}

proof fn lemma_token_run_region(t: Seq<char>, i: int, s: Seq<char>)
    requires
        0 <= i,
        i + s.len() < t.len(),
        forall|k: int| 0 <= k < s.len() ==> t[i + k] == s[k],
        forall|k: int| 0 <= k < s.len() ==> is_token_char(#[trigger] s[k]),
        !is_token_char(t[i + s.len()]),
    ensures
        token_run(t, i) == i + s.len(),
    decreases s.len(),
{
    if s.len() == 0 {
    } else {
        assert(t[i] == s[0]);
        assert(is_token_char(s[0]));
        assert forall|k: int| 0 <= k < s.skip(1).len() implies t[i + 1 + k] == s.skip(1)[k] by {
            assert(s.skip(1)[k] == s[k + 1]);
            assert(t[i + (k + 1)] == s[k + 1]);
        }
        assert forall|k: int| 0 <= k < s.skip(1).len() implies is_token_char(
            #[trigger] s.skip(1)[k],
        ) by {
            assert(s.skip(1)[k] == s[k + 1]);
        }
        lemma_token_run_region(t, i + 1, s.skip(1));
    }
}

/// A template that is one placeholder for a token the color map lacks
/// renders as the fallback value alone: the placeholder text never
/// survives rendering.
pub proof fn lemma_absent_token_fallback(tok: Seq<char>, m: Entries, hash: bool)
    requires
        tok.len() > 0,
        forall|i: int| 0 <= i < tok.len() ==> is_token_char(#[trigger] tok[i]),
        !crate::colormap::has_key(m, tok),
    ensures
        spec_render("{{ $"@ + (tok + " }}"@), m, hash) == if hash {
            "#000000"@
        } else {
            "000000"@
        },
{
    let t = "{{ $"@ + (tok + " }}"@);
    reveal_strlit("{{ $");
    reveal_strlit(" }}");
    reveal_strlit("000000");
    reveal_strlit("#000000");
    assert(t.len() == 7 + tok.len());
    assert(t.subrange(0, 4) =~= "{{ $"@) by {
        assert forall|k: int| 0 <= k < 4 implies t.subrange(0, 4)[k] == "{{ $"@[k] by {
            assert(t.subrange(0, 4)[k] == t[k]);
        }
    }
    assert(expect(t, 0, "{{ $"@) == Some(4int));
    assert forall|k: int| 0 <= k < tok.len() implies t[4 + k] == tok[k] by {
        assert((tok + " }}"@)[k] == tok[k]);
    }
    assert(t[4 + tok.len() as int] == ' ') by {
        assert((tok + " }}"@)[tok.len() as int] == " }}"@[0]);
    }
    lemma_token_run_region(t, 4, tok);
    let k = 4 + tok.len() as int;
    assert(t.subrange(k, k + 3) =~= " }}"@) by {
        assert forall|j: int| 0 <= j < 3 implies t.subrange(k, k + 3)[j] == " }}"@[j] by {
            assert(t.subrange(k, k + 3)[j] == t[k + j]);
            assert((tok + " }}"@)[tok.len() + j] == " }}"@[j]);
        }
    }
    assert(expect(t, k, " }}"@) == Some(k + 3));
    assert(t.subrange(4, k) =~= tok) by {
        assert forall|j: int| 0 <= j < tok.len() implies t.subrange(4, k)[j] == tok[j] by {
            assert(t.subrange(4, k)[j] == t[4 + j]);
        }
    }
    assert(placeholder_at(t, 0) == Some((tok, k + 3)));
    assert(spec_render_from(t, k + 3, m, hash) == Seq::<char>::empty());
    crate::colormap::lemma_lookup_iff_has_key(m, tok);
    assert(map_lookup(m, tok) == None::<Seq<char>>);
    assert(spec_render(t, m, hash) == subst(m, tok, hash) + Seq::<char>::empty());
    if hash {
        assert(subst(m, tok, hash) + Seq::<char>::empty() =~= "#000000"@);
    } else {
        assert(subst(m, tok, hash) + Seq::<char>::empty() =~= "000000"@);
    }
}

/// The replacement of every occurrence of a pattern, scanning from `i`.
pub open spec fn spec_replace_from(t: Seq<char>, i: int, pat: Seq<char>, rep: Seq<char>) -> Seq<
    char,
>
    decreases t.len() - i,
{
    if i < 0 || i >= t.len() {
        Seq::empty()
    } else {
        match expect(t, i, pat) {
            Some(n) => if i < n <= t.len() {
                rep + spec_replace_from(t, n, pat, rep)
            } else {
                seq![t[i]] + spec_replace_from(t, i + 1, pat, rep)
            },
            None => seq![t[i]] + spec_replace_from(t, i + 1, pat, rep),
        }
    }
}

/// The text with every occurrence of the pattern replaced.
pub open spec fn spec_replace_all(t: Seq<char>, pat: Seq<char>, rep: Seq<char>) -> Seq<char> {
    spec_replace_from(t, 0, pat, rep)
}

/// Replaces every occurrence of a nonempty pattern, left to right.
pub fn replace_all(t: &str, pat: &str, rep: &str) -> (r: String)
    requires
        pat@.len() > 0,
    ensures
        r@ == spec_replace_all(t@, pat@, rep@),
{
    let tl = t.unicode_len();
    let mut out = String::new();
    let mut i: usize = 0;
    loop
        invariant
            tl == t@.len(),
            i <= tl,
            pat@.len() > 0,
            spec_replace_all(t@, pat@, rep@) == out@ + spec_replace_from(t@, i as int, pat@, rep@),
        decreases tl - i,
    {
        if i == tl {
            proof {
                assert(out@ + spec_replace_from(t@, i as int, pat@, rep@) =~= out@);
            }
            return out;
        }
        match expect_at(t, i, pat) {
            Some(n) => {
                out.append(rep);
                proof {
                    assert(spec_replace_from(t@, i as int, pat@, rep@) == rep@
                        + spec_replace_from(t@, n as int, pat@, rep@));
                    assert(out@ + spec_replace_from(t@, n as int, pat@, rep@) =~= spec_replace_all(
                        t@,
                        pat@,
                        rep@,
                    ));
                }
                i = n;
            },
            None => {
                let c = t.get_char(i);
                push_char(&mut out, c);
                proof {
                    assert(spec_replace_from(t@, i as int, pat@, rep@) == seq![t@[i as int]]
                        + spec_replace_from(t@, i as int + 1, pat@, rep@));
                    assert(out@ + spec_replace_from(t@, i as int + 1, pat@, rep@)
                        =~= spec_replace_all(t@, pat@, rep@));
                }
                i = i + 1;
            },
        }
    }
}

/// One `$token = value` line per entry, in the map's order.
pub open spec fn spec_gen_conf(es: Entries) -> Seq<char>
    decreases es.len(),
{
    if es.len() == 0 {
        Seq::empty()
    } else {
        seq!['$'] + es[0].0 + " = "@ + es[0].1 + seq!['\n'] + spec_gen_conf(es.skip(1))
    }
}

/// Writes the variable file the compositor includes: every token as
/// `$token = value`, one per line.
pub fn gen_conf(colors: &ColorMap) -> (r: String)
    ensures
        r@ == spec_gen_conf(colors.view()),
{
    let mut out = String::new();
    let n = colors.len();
    let ghost es = colors.view();
    let mut i: usize = 0;
    proof {
        assert(es.skip(0) =~= es);
    }
    while i < n
        invariant
            n == es.len(),
            es == colors.view(),
            i <= n,
            spec_gen_conf(es) == out@ + spec_gen_conf(es.skip(i as int)),
        decreases n - i,
    {
        push_char(&mut out, '$');
        let k = colors.key_at(i);
        out.append(k.as_str());
        out.append(" = ");
        let v = colors.val_at(i);
        out.append(v.as_str());
        push_char(&mut out, '\n');
        proof {
            assert(es.skip(i as int)[0] == es[i as int]);
            assert(es.skip(i as int).skip(1) =~= es.skip(i as int + 1));
            assert(spec_gen_conf(es.skip(i as int)) == seq!['$'] + es[i as int].0 + " = "@
                + es[i as int].1 + seq!['\n'] + spec_gen_conf(es.skip(i as int + 1)));
            assert(out@ + spec_gen_conf(es.skip(i as int + 1)) =~= spec_gen_conf(es));
        }
        i = i + 1;
    }
    proof {
        assert(spec_gen_conf(es.skip(n as int)) == Seq::<char>::empty());
        assert(out@ + Seq::<char>::empty() =~= out@);
    }
    out
}

} // verus!
