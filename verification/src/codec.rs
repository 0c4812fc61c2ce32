//! Canonical JSON form of the scheme state: a fixed-shape object
//! `{"name":..,"flavor":..,"mode":..,"variant":..,"colors":{..}}`.
//! The writer emits exactly this shape; the reader accepts exactly
//! this shape and anything else counts as corrupt.

use vstd::prelude::*;
use crate::colormap::ColorMap;
use crate::colormap::Entries;
use crate::colormap::has_key;
use crate::colormap::keys_unique;
use crate::colormap::lemma_lookup_iff_has_key;
use crate::model::Mode;
use crate::model::SchemeState;
use crate::model::Variant;
use crate::model::json_safe;
use crate::model::mode_name;
use crate::model::mode_of_name;
use crate::model::variant_of_name;
use crate::model::spec_mode_of;
use crate::model::spec_variant_of;
use crate::model::variant_name;
use crate::text::expect;
use crate::text::expect_at;
use crate::text::push_char;
use vstd::string::StrSliceExecFns;
use vstd::string::StringExecFns;

verus! {

/// The scheme state as specifications see it.
pub struct StateV {
    pub name: Seq<char>,
    pub flavor: Seq<char>,
    pub mode: Mode,
    pub variant: Variant,
    pub colors: Entries,
}

/// The view of a state record.
pub open spec fn state_view(st: SchemeState) -> StateV {
    StateV {
        name: st.name@,
        flavor: st.flavor@,
        mode: st.mode,
        variant: st.variant,
        colors: st.colors.view(),
    }
}

/// One color entry as `"token":"value"`.
pub open spec fn entry_json(e: (Seq<char>, Seq<char>)) -> Seq<char> {
    seq!['"'] + (e.0 + ("\":\""@ + (e.1 + seq!['"'])))
}

/// The remaining entries, each preceded by a comma.
pub open spec fn entries_rest_json(s: Entries) -> Seq<char>
    decreases s.len(),
{
    if s.len() == 0 {
        Seq::empty()
    } else {
        seq![','] + (entry_json(s[0]) + entries_rest_json(s.skip(1)))
    }
}

/// The colors object.
pub open spec fn colors_json(s: Entries) -> Seq<char> {
    if s.len() == 0 {
        "{}"@
    } else {
        seq!['{'] + (entry_json(s[0]) + (entries_rest_json(s.skip(1)) + seq!['}']))
    }
}

/// The canonical text of a whole state record.
pub open spec fn state_json(v: StateV) -> Seq<char> {
    "{\"name\":\""@ + (v.name + ("\",\"flavor\":\""@ + (v.flavor + ("\",\"mode\":\""@ + (mode_name(
        v.mode,
    ) + ("\",\"variant\":\""@ + (variant_name(v.variant) + ("\",\"colors\":"@ + (colors_json(
        v.colors,
    ) + "}"@)))))))))
}

proof fn seq_assoc(x: Seq<char>, y: Seq<char>, z: Seq<char>)
    ensures
        (x + y) + z == x + (y + z),
{
    assert((x + y) + z =~= x + (y + z));
}

/// The canonical text, with the concatenation regrouped to the left,
/// as the writer builds it.
proof fn lemma_state_json_parts(n: Seq<char>, f: Seq<char>, m: Seq<char>, va: Seq<char>, c: Seq<char>)
    ensures
        "{\"name\":\""@ + (n + ("\",\"flavor\":\""@ + (f + ("\",\"mode\":\""@ + (m + ("\",\"variant\":\""@
            + (va + ("\",\"colors\":"@ + (c + "}"@))))))))) == "{\"name\":\""@ + n
            + "\",\"flavor\":\""@ + f + "\",\"mode\":\""@ + m + "\",\"variant\":\""@ + va
            + "\",\"colors\":"@ + c + "}"@,
{
    let a1 = "{\"name\":\""@;
    let a3 = "\",\"flavor\":\""@;
    let a5 = "\",\"mode\":\""@;
    let a7 = "\",\"variant\":\""@;
    let a9 = "\",\"colors\":"@;
    let a11 = "}"@;
    let t11 = a11;
    let t10 = c + t11;
    let t9 = a9 + t10;
    let t8 = va + t9;
    let t7 = a7 + t8;
    let t6 = m + t7;
    let t5 = a5 + t6;
    let t4 = f + t5;
    let t3 = a3 + t4;
    let t2 = n + t3;
    seq_assoc(a1, n, t3);
    let x2 = a1 + n;
    seq_assoc(x2, a3, t4);
    let x3 = x2 + a3;
    seq_assoc(x3, f, t5);
    let x4 = x3 + f;
    seq_assoc(x4, a5, t6);
    let x5 = x4 + a5;
    seq_assoc(x5, m, t7);
    let x6 = x5 + m;
    seq_assoc(x6, a7, t8);
    let x7 = x6 + a7;
    seq_assoc(x7, va, t9);
    let x8 = x7 + va;
    seq_assoc(x8, a9, t10);
    let x9 = x8 + a9;
    seq_assoc(x9, c, t11);
}

proof fn lemma_rest_snoc(s: Entries, e: (Seq<char>, Seq<char>))
    ensures
        entries_rest_json(s.push(e)) == entries_rest_json(s) + seq![','] + entry_json(e),
    decreases s.len(),
{
    if s.len() == 0 {
        let sp = s.push(e);
        assert(sp[0] == e);
        assert(sp.skip(1) =~= Seq::<(Seq<char>, Seq<char>)>::empty());
        assert(entries_rest_json(sp) == seq![','] + entry_json(sp[0]) + entries_rest_json(
            sp.skip(1),
        ));
        assert(entries_rest_json(sp.skip(1)) == Seq::<char>::empty());
        assert(entries_rest_json(s) == Seq::<char>::empty());
        assert(entries_rest_json(s.push(e)) =~= entries_rest_json(s) + seq![','] + entry_json(e));
    } else {
        let sp = s.push(e);
        assert(sp[0] == s[0]);
        assert(sp.skip(1) =~= s.skip(1).push(e));
        lemma_rest_snoc(s.skip(1), e);
        assert(entries_rest_json(sp) == seq![','] + entry_json(sp[0]) + entries_rest_json(
            sp.skip(1),
        ));
        assert(entries_rest_json(s) == seq![','] + entry_json(s[0]) + entries_rest_json(
            s.skip(1),
        ));
        assert(entries_rest_json(s.push(e)) =~= entries_rest_json(s) + seq![','] + entry_json(e));
    }
}

/// Appends one entry's text to the output.
fn append_entry(out: &mut String, k: &String, v: &String)
    ensures
        final(out)@ == old(out)@ + entry_json((k@, v@)),
{
    push_char(out, '"');
    out.append(k.as_str());
    out.append("\":\"");
    out.append(v.as_str());
    push_char(out, '"');
    proof {
        assert(final(out)@ =~= old(out)@ + entry_json((k@, v@)));
    }
}

/// Writes the colors object alone.
pub fn serialize_colors(cm: &ColorMap) -> (r: String)
    ensures
        r@ == colors_json(cm.view()),
{
    let mut out = String::new();
    let ghost pre = out@;
    let n = cm.len();
    if n == 0 {
        out.append("{}");
        proof {
            assert(out@ =~= colors_json(cm.view()));
        }
        return out;
    }
    push_char(&mut out, '{');
    let k0 = cm.key_at(0);
    let v0 = cm.val_at(0);
    append_entry(&mut out, &k0, &v0);
    let ghost cv = cm.view();
    let mut i: usize = 1;
    while i < n
        invariant
            n == cv.len(),
            cv == cm.view(),
            1 <= i <= n,
            out@ == pre + seq!['{'] + entry_json(cv[0]) + entries_rest_json(
                cv.subrange(1, i as int),
            ),
        decreases n - i,
    {
        push_char(&mut out, ',');
        let ki = cm.key_at(i);
        let vi = cm.val_at(i);
        append_entry(&mut out, &ki, &vi);
        proof {
            assert(cv.subrange(1, i as int).push(cv[i as int]) =~= cv.subrange(1, i as int + 1));
            lemma_rest_snoc(cv.subrange(1, i as int), cv[i as int]);
            assert(out@ =~= pre + seq!['{'] + entry_json(cv[0]) + entries_rest_json(
                cv.subrange(1, i as int + 1),
            ));
        }
        i = i + 1;
    }
    push_char(&mut out, '}');
    proof {
        assert(cv.subrange(1, n as int) =~= cv.skip(1));
        assert(out@ =~= colors_json(cv));
    }
    out
}

/// Writes the canonical text of a state record.
pub fn serialize_state(st: &SchemeState) -> (r: String)
    ensures
        r@ == state_json(state_view(*st)),
{
    let mut out = String::from_str("{\"name\":\"");
    out.append(st.name.as_str());
    out.append("\",\"flavor\":\"");
    out.append(st.flavor.as_str());
    out.append("\",\"mode\":\"");
    out.append(st.mode.as_str());
    out.append("\",\"variant\":\"");
    out.append(st.variant.as_str());
    out.append("\",\"colors\":");
    let ghost pre = out@;
    let n = st.colors.len();
    if n == 0 {
        out.append("{}");
        proof {
            assert(out@ =~= pre + colors_json(st.colors.view()));
        }
    } else {
        push_char(&mut out, '{');
        let k0 = st.colors.key_at(0);
        let v0 = st.colors.val_at(0);
        append_entry(&mut out, &k0, &v0);
        let ghost cv = st.colors.view();
        let mut i: usize = 1;
        while i < n
            invariant
                n == cv.len(),
                cv == st.colors.view(),
                1 <= i <= n,
                out@ == pre + seq!['{'] + entry_json(cv[0]) + entries_rest_json(
                    cv.subrange(1, i as int),
                ),
            decreases n - i,
        {
            push_char(&mut out, ',');
            let ki = st.colors.key_at(i);
            let vi = st.colors.val_at(i);
            append_entry(&mut out, &ki, &vi);
            proof {
                assert(cv.subrange(1, i as int).push(cv[i as int]) =~= cv.subrange(
                    1,
                    i as int + 1,
                ));
                lemma_rest_snoc(cv.subrange(1, i as int), cv[i as int]);
                assert(out@ =~= pre + seq!['{'] + entry_json(cv[0]) + entries_rest_json(
                    cv.subrange(1, i as int + 1),
                ));
            }
            i = i + 1;
        }
        push_char(&mut out, '}');
        proof {
            assert(cv.subrange(1, n as int) =~= cv.skip(1));
            assert(out@ =~= pre + colors_json(cv));
        }
    }
    proof {
        assert(out@ == pre + colors_json(st.colors.view()));
    }
    push_char(&mut out, '}');
    proof {
        reveal_strlit("}");
        assert(out@ =~= pre + colors_json(st.colors.view()) + "}"@);
        lemma_state_json_parts(
            st.name@,
            st.flavor@,
            mode_name(st.mode),
            variant_name(st.variant),
            colors_json(st.colors.view()),
        );
        assert(out@ == state_json(state_view(*st)));
    }
    out
}

/// The first quote or backslash at or after a position.
pub open spec fn find_stop(t: Seq<char>, i: int) -> Option<int>
    decreases t.len() - i,
{
    if i < 0 || i >= t.len() {
        None
    } else if t[i] == '"' || t[i] == '\\' {
        Some(i)
    } else {
        find_stop(t, i + 1)
    }
}

/// A string body read up to its closing quote; backslashes are refused.
pub open spec fn scan_string(t: Seq<char>, i: int) -> Option<(Seq<char>, int)> {
    match find_stop(t, i) {
        None => None,
        Some(q) => if t[q] == '"' {
            Some((t.subrange(i, q), q))
        } else {
            None
        },
    }
}

/// One `"token":"value"` entry, yielding the position after it.
pub open spec fn parse_one_entry(t: Seq<char>, i: int) -> Option<((Seq<char>, Seq<char>), int)> {
    match expect(t, i, "\""@) {
        None => None,
        Some(j) => match scan_string(t, j) {
            None => None,
            Some((key, q1)) => match expect(t, q1, "\":\""@) {
                None => None,
                Some(j2) => match scan_string(t, j2) {
                    None => None,
                    Some((val, q2)) => Some(((key, val), q2 + 1)),
                },
            },
        },
    }
}

/// The entries of the colors object up to and including its `}`.
pub open spec fn parse_entries(t: Seq<char>, i: int, acc: Entries) -> Option<(Entries, int)>
    decreases t.len() - i,
{
    if i < 0 || i >= t.len() {
        None
    } else if t[i] == '}' {
        Some((acc, i + 1))
    } else {
        let start = if acc.len() == 0 {
            Some(i)
        } else if t[i] == ',' {
            Some(i + 1)
        } else {
            None
        };
        match start {
            None => None,
            Some(s0) => match parse_one_entry(t, s0) {
                None => None,
                Some((e, next)) => if has_key(acc, e.0) {
                    None
                } else if next > i && next <= t.len() {
                    parse_entries(t, next, acc.push(e))
                } else {
                    None
                },
            },
        }
    }
}

/// The parser of the canonical state text.
pub open spec fn spec_parse_state(t: Seq<char>) -> Option<StateV> {
    match expect(t, 0, "{\"name\":\""@) {
        None => None,
        Some(p0) => match scan_string(t, p0) {
            None => None,
            Some((name, q1)) => match expect(t, q1, "\",\"flavor\":\""@) {
                None => None,
                Some(p1) => match scan_string(t, p1) {
                    None => None,
                    Some((flavor, q2)) => match expect(t, q2, "\",\"mode\":\""@) {
                        None => None,
                        Some(p2) => match scan_string(t, p2) {
                            None => None,
                            Some((ms, q3)) => match spec_mode_of(ms) {
                                None => None,
                                Some(mode) => match expect(t, q3, "\",\"variant\":\""@) {
                                    None => None,
                                    Some(p3) => match scan_string(t, p3) {
                                        None => None,
                                        Some((vs, q4)) => match spec_variant_of(vs) {
                                            None => None,
                                            Some(variant) => match expect(
                                                t,
                                                q4,
                                                "\",\"colors\":{"@,
                                            ) {
                                                None => None,
                                                Some(p4) => match parse_entries(
                                                    t,
                                                    p4,
                                                    Seq::empty(),
                                                ) {
                                                    None => None,
                                                    Some((colors, p5)) => match expect(
                                                        t,
                                                        p5,
                                                        "}"@,
                                                    ) {
                                                        None => None,
                                                        Some(p6) => if p6 == t.len() {
                                                            Some(
                                                                StateV {
                                                                    name,
                                                                    flavor,
                                                                    mode,
                                                                    variant,
                                                                    colors,
                                                                },
                                                            )
                                                        } else {
                                                            None
                                                        },
                                                    },
                                                },
                                            },
                                        },
                                    },
                                },
                            },
                        },
                    },
                },
            },
        },
    }
}


proof fn lemma_skip_parts(t: Seq<char>, i: int, a: Seq<char>, b: Seq<char>)
    requires
        0 <= i <= t.len(),
        t.skip(i) == a + b,
    ensures
        i + a.len() + b.len() == t.len(),
        t.subrange(i, i + a.len()) == a,
        t.skip(i + a.len()) == b,
{
    assert(t.skip(i).len() == t.len() - i);
    assert(t.subrange(i, i + a.len()) =~= a) by {
        assert forall|k: int| 0 <= k < a.len() implies t.subrange(i, i + a.len())[k] == a[k] by {
            assert(t.subrange(i, i + a.len())[k] == t[i + k]);
            assert(t.skip(i)[k] == t[i + k]);
            assert(t.skip(i)[k] == (a + b)[k]);
            assert((a + b)[k] == a[k]);
        }
    }
    assert(t.skip(i + a.len()) =~= b) by {
        assert forall|k: int| 0 <= k < b.len() implies t.skip(i + a.len())[k] == b[k] by {
            assert(t.skip(i + a.len())[k] == t[i + a.len() + k]);
            assert(t.skip(i)[a.len() + k] == t[i + a.len() + k]);
            assert(t.skip(i)[a.len() + k] == (a + b)[a.len() + k]);
            assert((a + b)[a.len() + k] == b[k]);
        }
    }
}

proof fn lemma_expect_step(t: Seq<char>, i: int, lit: Seq<char>, rest: Seq<char>)
    requires
        0 <= i <= t.len(),
        t.skip(i) == lit + rest,
    ensures
        i + lit.len() <= t.len(),
        expect(t, i, lit) == Some(i + lit.len()),
        t.skip(i + lit.len()) == rest,
{
    lemma_skip_parts(t, i, lit, rest);
}

proof fn lemma_find_stop_at(t: Seq<char>, i: int, s: Seq<char>, rest: Seq<char>)
    requires
        0 <= i <= t.len(),
        t.skip(i) == s + rest,
        rest.len() > 0,
        rest[0] == '"',
        json_safe(s),
    ensures
        find_stop(t, i) == Some(i + s.len()),
        i + s.len() < t.len(),
        t[i + s.len()] == '"',
    decreases s.len(),
{
    assert(t.skip(i).len() == t.len() - i);
    if s.len() == 0 {
        assert(t[i] == '"') by {
            assert(t.skip(i)[0] == t[i]);
            assert(t.skip(i)[0] == (s + rest)[0]);
            assert((s + rest)[0] == rest[0]);
        }
    } else {
        assert(t[i] == s[0]) by {
            assert(t.skip(i)[0] == t[i]);
            assert(t.skip(i)[0] == (s + rest)[0]);
            assert((s + rest)[0] == s[0]);
        }
        assert(s[0] != '"' && s[0] != '\\');
        assert(t.skip(i + 1) =~= s.skip(1) + rest) by {
            assert forall|k: int| 0 <= k < t.len() - i - 1 implies t.skip(i + 1)[k] == (s.skip(1)
                + rest)[k] by {
                assert(t.skip(i + 1)[k] == t[i + 1 + k]);
                assert(t.skip(i)[k + 1] == t[i + 1 + k]);
                assert(t.skip(i)[k + 1] == (s + rest)[k + 1]);
                if k + 1 < s.len() {
                    assert((s + rest)[k + 1] == s[k + 1]);
                    assert((s.skip(1) + rest)[k] == s.skip(1)[k]);
                    assert(s.skip(1)[k] == s[k + 1]);
                } else {
                    assert((s + rest)[k + 1] == rest[k + 1 - s.len()]);
                    assert((s.skip(1) + rest)[k] == rest[k - (s.len() - 1)]);
                }
            }
        }
        assert(json_safe(s.skip(1)));
        lemma_find_stop_at(t, i + 1, s.skip(1), rest);
    }
}

proof fn lemma_scan_step(t: Seq<char>, i: int, s: Seq<char>, rest: Seq<char>)
    requires
        0 <= i <= t.len(),
        t.skip(i) == s + rest,
        rest.len() > 0,
        rest[0] == '"',
        json_safe(s),
    ensures
        i + s.len() < t.len(),
        scan_string(t, i) == Some((s, i + s.len())),
        t.skip(i + s.len()) == rest,
{
    lemma_find_stop_at(t, i, s, rest);
    lemma_skip_parts(t, i, s, rest);
}

/// A literal followed by a quote-terminated string, matched in one step.
proof fn lemma_lit_string(t: Seq<char>, i: int, lit: Seq<char>, s: Seq<char>, rest: Seq<char>)
    requires
        0 <= i <= t.len(),
        t.skip(i) == lit + (s + rest),
        rest.len() > 0,
        rest[0] == '"',
        json_safe(s),
    ensures
        expect(t, i, lit) == Some(i + lit.len()),
        i + lit.len() <= t.len(),
        scan_string(t, i + lit.len()) == Some((s, i + lit.len() + s.len())),
        i + lit.len() + s.len() < t.len(),
        t.skip(i + lit.len() + s.len()) == rest,
{
    lemma_expect_step(t, i, lit, s + rest);
    lemma_scan_step(t, i + lit.len(), s, rest);
}

proof fn lemma_entry_step(t: Seq<char>, i: int, e: (Seq<char>, Seq<char>), rest: Seq<char>)
    requires
        0 <= i <= t.len(),
        t.skip(i) == entry_json(e) + rest,
        json_safe(e.0),
        json_safe(e.1),
    ensures
        i + entry_json(e).len() <= t.len(),
        entry_json(e).len() == e.0.len() + e.1.len() + 5,
        parse_one_entry(t, i) == Some((e, i + entry_json(e).len())),
        t.skip(i + entry_json(e).len()) == rest,
{
    reveal_strlit("\"");
    reveal_strlit("\":\"");
    assert("\""@ =~= seq!['"']);
    assert("\":\""@.len() == 3);
    assert("\":\""@[0] == '"');
    let tail1 = "\":\""@ + (e.1 + ("\""@ + rest));
    assert(t.skip(i) =~= "\""@ + (e.0 + tail1));
    lemma_lit_string(t, i, "\""@, e.0, tail1);
    let q1 = i + 1 + e.0.len();
    let tail2 = "\""@ + rest;
    assert((tail2)[0] == '"');
    lemma_lit_string(t, q1, "\":\""@, e.1, tail2);
    let q2 = q1 + 3 + e.1.len();
    assert(t.skip(q2) == tail2);
    lemma_skip_parts(t, q2, "\""@, rest);
    assert(t.skip(q2 + 1) == rest);
    assert(entry_json(e).len() == e.0.len() + e.1.len() + 5);
}

proof fn lemma_parse_entries_rest(
    t: Seq<char>,
    i: int,
    acc: Entries,
    rest: Entries,
    tail: Seq<char>,
)
    requires
        0 <= i <= t.len(),
        t.skip(i) == entries_rest_json(rest) + (seq!['}'] + tail),
        acc.len() > 0,
        keys_unique(acc + rest),
        forall|k: int| 0 <= k < rest.len() ==> json_safe(#[trigger] rest[k].0) && json_safe(
            rest[k].1,
        ),
    ensures
        parse_entries(t, i, acc) == Some((acc + rest, i + entries_rest_json(rest).len() + 1)),
        i + entries_rest_json(rest).len() + 1 <= t.len(),
        t.skip(i + entries_rest_json(rest).len() + 1) == tail,
    decreases rest.len(),
{
    assert(t.skip(i).len() == t.len() - i);
    if rest.len() == 0 {
        assert(entries_rest_json(rest) == Seq::<char>::empty());
        assert(t.skip(i) =~= seq!['}'] + tail);
        lemma_skip_parts(t, i, seq!['}'], tail);
        assert(t[i] == '}') by {
            assert(t.subrange(i, i + 1)[0] == t[i]);
        }
        assert(acc + rest =~= acc);
        assert(i < t.len());
        assert(parse_entries(t, i, acc) == Some((acc, i + 1)));
    } else {
        let e = rest[0];
        let rj = entries_rest_json(rest);
        assert(rj == seq![','] + (entry_json(e) + entries_rest_json(rest.skip(1))));
        let after_e = entries_rest_json(rest.skip(1)) + (seq!['}'] + tail);
        assert(t.skip(i) =~= seq![','] + (entry_json(e) + after_e));
        lemma_skip_parts(t, i, seq![','], entry_json(e) + after_e);
        assert(t[i] == ',') by {
            assert(t.subrange(i, i + 1)[0] == t[i]);
        }
        assert(t[i] != '}');
        assert(json_safe(e.0) && json_safe(e.1));
        lemma_entry_step(t, i + 1, e, after_e);
        let next = i + 1 + entry_json(e).len();
        assert(!has_key(acc, e.0)) by {
            let full = acc + rest;
            assert(full[acc.len() as int] == e);
            assert forall|j: int| 0 <= j < acc.len() implies acc[j].0 != e.0 by {
                assert(full[j] == acc[j]);
                assert(full[j].0 != full[acc.len() as int].0);
            }
        }
        let acc2 = acc.push(e);
        assert(acc2 + rest.skip(1) =~= acc + rest);
        assert(forall|k: int| 0 <= k < rest.skip(1).len() ==> json_safe(
            #[trigger] rest.skip(1)[k].0,
        ) && json_safe(rest.skip(1)[k].1)) by {
            assert forall|k: int| 0 <= k < rest.skip(1).len() implies json_safe(
                #[trigger] rest.skip(1)[k].0,
            ) && json_safe(rest.skip(1)[k].1) by {
                assert(rest.skip(1)[k] == rest[k + 1]);
            }
        }
        lemma_parse_entries_rest(t, next, acc2, rest.skip(1), tail);
        assert(parse_entries(t, i, acc) == parse_entries(t, next, acc2));
        assert(acc2 + rest.skip(1) == acc + rest);
        assert(rj.len() == 1 + entry_json(e).len() + entries_rest_json(rest.skip(1)).len());
    }
}

proof fn lemma_mode_name_parse(m: Mode)
    ensures
        spec_mode_of(mode_name(m)) == Some(m),
        json_safe(mode_name(m)),
{
    reveal_strlit("dark");
    reveal_strlit("light");
    assert("dark"@.len() == 4);
    assert("light"@.len() == 5);
}

#[verifier::rlimit(50)]
proof fn lemma_variant_name_parse(v: Variant)
    ensures
        spec_variant_of(variant_name(v)) == Some(v),
        json_safe(variant_name(v)),
{
    reveal_strlit("tonalspot");
    reveal_strlit("vibrant");
    reveal_strlit("expressive");
    reveal_strlit("fidelity");
    reveal_strlit("fruitsalad");
    reveal_strlit("monochrome");
    reveal_strlit("neutral");
    reveal_strlit("rainbow");
    reveal_strlit("content");
    assert("tonalspot"@.len() == 9);
    assert("vibrant"@.len() == 7);
    assert("expressive"@.len() == 10);
    assert("fidelity"@.len() == 8);
    assert("fruitsalad"@.len() == 10);
    assert("monochrome"@.len() == 10);
    assert("neutral"@.len() == 7);
    assert("rainbow"@.len() == 7);
    assert("content"@.len() == 7);
    assert("neutral"@[0] == 'n' && "vibrant"@[0] == 'v' && "rainbow"@[0] == 'r' && "content"@[0]
        == 'c');
    assert("expressive"@[0] == 'e' && "fruitsalad"@[0] == 'f' && "monochrome"@[0] == 'm');
}

/// Parses the colors section of a canonical text.
proof fn lemma_colors_section(t: Seq<char>, p4: int, colors: Entries)
    requires
        0 <= p4 <= t.len(),
        colors.len() == 0 ==> t.skip(p4) == Seq::<char>::empty() + (seq!['}'] + seq!['}']),
        colors.len() > 0 ==> t.skip(p4) == (entry_json(colors[0]) + entries_rest_json(
            colors.skip(1),
        )) + (seq!['}'] + seq!['}']),
        keys_unique(colors),
        forall|k: int| 0 <= k < colors.len() ==> json_safe(#[trigger] colors[k].0) && json_safe(
            colors[k].1,
        ),
    ensures
        parse_entries(t, p4, Seq::empty()) matches Some(r) && r.0 == colors && p4 < r.1 <= t.len()
            && t.skip(r.1) == seq!['}'],
{
    assert(t.skip(p4).len() == t.len() - p4);
    if colors.len() == 0 {
        assert(t.skip(p4) =~= seq!['}'] + seq!['}']);
        lemma_skip_parts(t, p4, seq!['}'], seq!['}']);
        assert(t[p4] == '}') by {
            assert(t.subrange(p4, p4 + 1)[0] == t[p4]);
        }
        assert(p4 < t.len());
        assert(parse_entries(t, p4, Seq::empty()) == Some(
            (Seq::<(Seq<char>, Seq<char>)>::empty(), p4 + 1),
        ));
        assert(Seq::<(Seq<char>, Seq<char>)>::empty() =~= colors);
        assert(t.skip(p4 + 1) == seq!['}']);
    } else {
        let e0 = colors[0];
        let rest_entries = colors.skip(1);
        let after0 = entries_rest_json(rest_entries) + (seq!['}'] + seq!['}']);
        assert(t.skip(p4) =~= entry_json(e0) + after0);
        assert(json_safe(e0.0) && json_safe(e0.1));
        lemma_entry_step(t, p4, e0, after0);
        assert(t[p4] == '"') by {
            reveal_strlit("\"");
            assert(t.subrange(p4, p4 + entry_json(e0).len())[0] == t[p4]);
            assert(entry_json(e0)[0] == '"');
        }
        assert(t[p4] != '}');
        let next = p4 + entry_json(e0).len();
        assert(!has_key(Seq::empty(), e0.0));
        let acc1 = Seq::<(Seq<char>, Seq<char>)>::empty().push(e0);
        assert(acc1 + rest_entries =~= colors);
        assert(keys_unique(acc1 + rest_entries));
        assert(forall|k: int| 0 <= k < rest_entries.len() ==> json_safe(
            #[trigger] rest_entries[k].0,
        ) && json_safe(rest_entries[k].1)) by {
            assert forall|k: int| 0 <= k < rest_entries.len() implies json_safe(
                #[trigger] rest_entries[k].0,
            ) && json_safe(rest_entries[k].1) by {
                assert(rest_entries[k] == colors[k + 1]);
            }
        }
        lemma_parse_entries_rest(t, next, acc1, rest_entries, seq!['}']);
        assert(parse_entries(t, p4, Seq::empty()) == parse_entries(t, next, acc1));
        assert(acc1 + rest_entries == colors);
    }
}

/// Where the colors object's entries begin in the canonical text.
pub open spec fn colors_pos(v: StateV) -> int {
    56 + v.name.len() as int + v.flavor.len() as int + mode_name(v.mode).len() as int
        + variant_name(v.variant).len() as int
}

/// The inner text of the colors object, without its braces.
pub open spec fn colors_inner(s: Entries) -> Seq<char> {
    if s.len() == 0 {
        Seq::<char>::empty()
    } else {
        entry_json(s[0]) + entries_rest_json(s.skip(1))
    }
}

/// The colors object text followed by the outer closing brace,
/// regrouped around the opening brace.
proof fn lemma_colors_fold(s: Entries)
    ensures
        colors_json(s) + "}"@ == seq!['{'] + (colors_inner(s) + (seq!['}'] + seq!['}'])),
{
    reveal_strlit("{}");
    reveal_strlit("}");
    if s.len() == 0 {
        assert(colors_json(s) + "}"@ =~= seq!['{'] + (colors_inner(s) + (seq!['}'] + seq!['}'])));
    } else {
        assert(colors_json(s) + "}"@ =~= seq!['{'] + (colors_inner(s) + (seq!['}'] + seq!['}'])));
    }
}

/// What follows the flavor field's closing quote in the canonical text.
spec fn tail_after_flavor(v: StateV) -> Seq<char> {
    "\",\"mode\":\""@ + (mode_name(v.mode) + ("\",\"variant\":\""@ + (variant_name(v.variant) + (
    "\",\"colors\":"@ + (colors_json(v.colors) + "}"@)))))
}

#[verifier::rlimit(100)]
#[verifier::spinoff_prover]
proof fn lemma_header_a(v: StateV)
    requires
        json_safe(v.name),
        json_safe(v.flavor),
    ensures
        expect(state_json(v), 0, "{\"name\":\""@) == Some(9int),
        scan_string(state_json(v), 9) == Some((v.name, 9 + v.name.len() as int)),
        expect(state_json(v), 9 + v.name.len() as int, "\",\"flavor\":\""@) == Some(
            21 + v.name.len() as int,
        ),
        scan_string(state_json(v), 21 + v.name.len() as int) == Some(
            (v.flavor, 21 + v.name.len() as int + v.flavor.len() as int),
        ),
        0 <= 21 + v.name.len() as int + v.flavor.len() as int <= state_json(v).len(),
        state_json(v).skip(21 + v.name.len() as int + v.flavor.len() as int) == tail_after_flavor(
            v,
        ),
{
    let t = state_json(v);
    reveal_strlit("{\"name\":\"");
    reveal_strlit("\",\"flavor\":\"");
    reveal_strlit("\",\"mode\":\"");
    assert("{\"name\":\""@.len() == 9);
    assert("\",\"flavor\":\""@.len() == 12);
    let r_flav = tail_after_flavor(v);
    let s_flav = v.flavor + r_flav;
    let r_name = "\",\"flavor\":\""@ + s_flav;
    let s_name = v.name + r_name;
    assert(t == "{\"name\":\""@ + s_name);
    assert(t.skip(0) =~= t);
    assert(r_name[0] == '"');
    lemma_lit_string(t, 0, "{\"name\":\""@, v.name, r_name);
    let q1 = 9 + v.name.len() as int;
    assert(t.skip(q1) == r_name);
    assert(r_flav[0] == '"');
    lemma_lit_string(t, q1, "\",\"flavor\":\""@, v.flavor, r_flav);
    assert(t.skip(21 + v.name.len() as int + v.flavor.len() as int) == r_flav);
}

#[verifier::rlimit(100)]
#[verifier::spinoff_prover]
proof fn lemma_header_positions(v: StateV)
    requires
        json_safe(v.name),
        json_safe(v.flavor),
    ensures
        expect(state_json(v), 0, "{\"name\":\""@) == Some(9int),
        scan_string(state_json(v), 9) == Some((v.name, 9 + v.name.len() as int)),
        expect(state_json(v), 9 + v.name.len() as int, "\",\"flavor\":\""@) == Some(
            21 + v.name.len() as int,
        ),
        scan_string(state_json(v), 21 + v.name.len() as int) == Some(
            (v.flavor, 21 + v.name.len() as int + v.flavor.len() as int),
        ),
        expect(
            state_json(v),
            21 + v.name.len() as int + v.flavor.len() as int,
            "\",\"mode\":\""@,
        ) == Some(31 + v.name.len() as int + v.flavor.len() as int),
        scan_string(state_json(v), 31 + v.name.len() as int + v.flavor.len() as int) == Some(
            (
                mode_name(v.mode),
                31 + v.name.len() as int + v.flavor.len() as int + mode_name(v.mode).len() as int,
            ),
        ),
        expect(
            state_json(v),
            31 + v.name.len() as int + v.flavor.len() as int + mode_name(v.mode).len() as int,
            "\",\"variant\":\""@,
        ) == Some(
            44 + v.name.len() as int + v.flavor.len() as int + mode_name(v.mode).len() as int,
        ),
        scan_string(
            state_json(v),
            44 + v.name.len() as int + v.flavor.len() as int + mode_name(v.mode).len() as int,
        ) == Some(
            (
                variant_name(v.variant),
                44 + v.name.len() as int + v.flavor.len() as int + mode_name(v.mode).len() as int
                    + variant_name(v.variant).len() as int,
            ),
        ),
        expect(
            state_json(v),
            44 + v.name.len() as int + v.flavor.len() as int + mode_name(v.mode).len() as int
                + variant_name(v.variant).len() as int,
            "\",\"colors\":{"@,
        ) == Some(colors_pos(v)),
        0 <= colors_pos(v) <= state_json(v).len(),
        state_json(v).skip(colors_pos(v)) == colors_inner(v.colors) + (seq!['}'] + seq!['}']),
{
    let t = state_json(v);
    let mn = mode_name(v.mode);
    let vn = variant_name(v.variant);
    let cj = colors_json(v.colors);
    lemma_mode_name_parse(v.mode);
    lemma_variant_name_parse(v.variant);
    lemma_header_a(v);
    reveal_strlit("\",\"mode\":\"");
    reveal_strlit("\",\"variant\":\"");
    reveal_strlit("\",\"colors\":");
    reveal_strlit("\",\"colors\":{");
    reveal_strlit("}");
    assert("\",\"mode\":\""@.len() == 10);
    assert("\",\"variant\":\""@.len() == 13);
    assert("\",\"colors\":{"@.len() == 12);

    // suffixes of the canonical text, innermost last, in the exact
    // association the definition of `state_json` uses
    let r_cols = cj + "}"@;
    let r_var = "\",\"colors\":"@ + r_cols;
    let s_var = vn + r_var;
    let r_mode = "\",\"variant\":\""@ + s_var;
    let s_mode = mn + r_mode;
    let r_flav = "\",\"mode\":\""@ + s_mode;
    let q2 = 21 + v.name.len() + v.flavor.len() as int;
    assert(r_flav == tail_after_flavor(v));
    assert(t.skip(q2) == r_flav);

    assert(r_mode[0] == '"');
    lemma_lit_string(t, q2, "\",\"mode\":\""@, mn, r_mode);
    let q3 = 31 + v.name.len() + v.flavor.len() + mn.len() as int;
    assert(t.skip(q3) == r_mode);

    assert(r_var[0] == '"');
    lemma_lit_string(t, q3, "\",\"variant\":\""@, vn, r_var);
    let q4 = 44 + v.name.len() + v.flavor.len() + mn.len() + vn.len() as int;
    assert(t.skip(q4) == r_var);

    // the colors object: fold its opening brace into the literal
    let inner = colors_inner(v.colors);
    let r_inner = inner + (seq!['}'] + seq!['}']);
    lemma_colors_fold(v.colors);
    assert(r_cols == seq!['{'] + r_inner);
    assert("\",\"colors\":{"@ =~= "\",\"colors\":"@ + seq!['{']);
    seq_assoc("\",\"colors\":"@, seq!['{'], r_inner);
    assert(r_var == "\",\"colors\":{"@ + r_inner);
    lemma_expect_step(t, q4, "\",\"colors\":{"@, r_inner);
    assert(q4 + 12 == colors_pos(v));
    assert(t.skip(colors_pos(v)) == r_inner);
}

/// Serializing a well-formed record and parsing the result yields the
/// same record: the round trip over the canonical state text.
#[verifier::rlimit(100)]
#[verifier::spinoff_prover]
pub proof fn lemma_state_round_trip(v: StateV)
    requires
        json_safe(v.name),
        json_safe(v.flavor),
        keys_unique(v.colors),
        forall|k: int| 0 <= k < v.colors.len() ==> json_safe(#[trigger] v.colors[k].0)
            && json_safe(v.colors[k].1),
    ensures
        spec_parse_state(state_json(v)) == Some(v),
{
    let t = state_json(v);
    lemma_header_positions(v);
    lemma_mode_name_parse(v.mode);
    lemma_variant_name_parse(v.variant);
    let p4 = colors_pos(v);
    lemma_colors_section(t, p4, v.colors);
    let (cols, p5) = parse_entries(t, p4, Seq::empty()).unwrap();
    assert(cols == v.colors);
    assert(t.skip(p5) == seq!['}']);

    reveal_strlit("}");
    assert(t.skip(p5) =~= "}"@ + Seq::<char>::empty());
    lemma_expect_step(t, p5, "}"@, Seq::empty());
    let p6 = p5 + 1;
    assert(t.skip(p6) == Seq::<char>::empty());
    assert(t.skip(p6).len() == t.len() - p6);
    assert(p6 == t.len());

    assert(spec_parse_state(t) == Some(
        StateV { name: v.name, flavor: v.flavor, mode: v.mode, variant: v.variant, colors: v.colors },
    ));
    assert(StateV {
        name: v.name,
        flavor: v.flavor,
        mode: v.mode,
        variant: v.variant,
        colors: v.colors,
    } == v);
}

proof fn lemma_find_stop_inv(t: Seq<char>, i: int)
    requires
        0 <= i,
    ensures
        match find_stop(t, i) {
            Some(q) => i <= q < t.len() && (t[q] == '"' || t[q] == '\\') && (forall|m: int|
                i <= m < q ==> t[m] != '"' && t[m] != '\\'),
            None => forall|m: int| i <= m < t.len() ==> t[m] != '"' && t[m] != '\\',
        },
    decreases t.len() - i,
{
    if i >= t.len() {
    } else if t[i] == '"' || t[i] == '\\' {
    } else {
        lemma_find_stop_inv(t, i + 1);
    }
}

proof fn lemma_scan_props(t: Seq<char>, i: int)
    requires
        0 <= i,
    ensures
        match scan_string(t, i) {
            Some(p) => i <= p.1 < t.len() && t[p.1] == '"' && p.0 == t.subrange(i, p.1)
                && json_safe(p.0) && p.0.len() == p.1 - i,
            None => true,
        },
{
    lemma_find_stop_inv(t, i);
    if scan_string(t, i) is Some {
        let q = find_stop(t, i).unwrap();
        assert(json_safe(t.subrange(i, q))) by {
            assert forall|m: int| 0 <= m < q - i implies t.subrange(i, q)[m] != '"' && t.subrange(
                i,
                q,
            )[m] != '\\' by {
                assert(t.subrange(i, q)[m] == t[i + m]);
            }
        }
    }
}

/// Reads a string body up to its closing quote.
fn scan_at(t: &str, i: usize) -> (r: Option<(String, usize)>)
    ensures
        match r {
            Some(p) => scan_string(t@, i as int) == Some((p.0@, p.1 as int)) && i <= p.1
                && (p.1 as int) < t@.len() && json_safe(p.0@),
            None => scan_string(t@, i as int) == None::<(Seq<char>, int)>,
        },
{
    let tl = t.unicode_len();
    let mut j = i;
    if i > tl {
        return None;
    }
    loop
        invariant
            tl == t@.len(),
            i <= j <= tl,
            find_stop(t@, i as int) == find_stop(t@, j as int),
        decreases tl - j,
    {
        if j == tl {
            return None;
        }
        let c = t.get_char(j);
        if c == '"' {
            let s = t.substring_char(i, j).to_owned();
            proof {
                assert(find_stop(t@, j as int) == Some(j as int));
                lemma_scan_props(t@, i as int);
            }
            return Some((s, j));
        }
        if c == '\\' {
            proof {
                assert(find_stop(t@, j as int) == Some(j as int));
            }
            return None;
        }
        j = j + 1;
    }
}

/// Reads the colors object's entries through its closing brace.
fn parse_colors_at(t: &str, i: usize) -> (r: Option<(ColorMap, usize)>)
    ensures
        match r {
            Some(p) => parse_entries(t@, i as int, Seq::empty()) == Some((p.0.view(), p.1 as int))
                && p.0.wf() && p.1 <= t@.len() && (forall|k: int|
                0 <= k < p.0.view().len() ==> json_safe(#[trigger] p.0.view()[k].0) && json_safe(
                    p.0.view()[k].1,
                )),
            None => parse_entries(t@, i as int, Seq::empty()) == None::<(Entries, int)>,
        },
{
    let tl = t.unicode_len();
    let mut cm = ColorMap::new();
    let mut j = i;
    if i > tl {
        return None;
    }
    loop
        invariant
            tl == t@.len(),
            j <= tl,
            cm.wf(),
            forall|k: int| 0 <= k < cm.view().len() ==> json_safe(#[trigger] cm.view()[k].0)
                && json_safe(cm.view()[k].1),
            parse_entries(t@, i as int, Seq::empty()) == parse_entries(t@, j as int, cm.view()),
        decreases tl - j,
    {
        if j == tl {
            return None;
        }
        let c = t.get_char(j);
        if c == '}' {
            return Some((cm, j + 1));
        }
        let s0 = if cm.len() == 0 {
            j
        } else {
            if c != ',' {
                return None;
            }
            j + 1
        };
        proof {
            reveal_strlit("\"");
            reveal_strlit("\":\"");
        }
        let p_q = match expect_at(t, s0, "\"") {
            None => {
                return None;
            },
            Some(x) => x,
        };
        let (key, q1) = match scan_at(t, p_q) {
            None => {
                return None;
            },
            Some(x) => x,
        };
        let p_c = match expect_at(t, q1, "\":\"") {
            None => {
                return None;
            },
            Some(x) => x,
        };
        let (val, q2) = match scan_at(t, p_c) {
            None => {
                return None;
            },
            Some(x) => x,
        };
        let next = q2 + 1;
        let dup = cm.get(key.as_str());
        proof {
            lemma_lookup_iff_has_key(cm.view(), key@);
        }
        if dup.is_some() {
            return None;
        }
        let ghost gkey = key@;
        let ghost gval = val@;
        let ghost old_view = cm.view();
        cm.insert(key, val);
        proof {
            assert(cm.view() == old_view.push((gkey, gval)));
            assert(parse_one_entry(t@, s0 as int) == Some(((gkey, gval), next as int)));
            assert(parse_entries(t@, j as int, old_view) == parse_entries(
                t@,
                next as int,
                old_view.push((gkey, gval)),
            ));
            assert forall|k: int| 0 <= k < cm.view().len() implies json_safe(
                #[trigger] cm.view()[k].0,
            ) && json_safe(cm.view()[k].1) by {
                if k < old_view.len() {
                    assert(cm.view()[k] == old_view[k]);
                } else {
                    assert(cm.view()[k] == (gkey, gval));
                }
            }
        }
        j = next;
    }
}

/// Parses the canonical state text; anything else yields `None`.
pub fn parse_state(s: &str) -> (r: Option<SchemeState>)
    ensures
        match r {
            Some(st) => spec_parse_state(s@) == Some(state_view(st)) && st.wf(),
            None => spec_parse_state(s@) == None::<StateV>,
        },
{
    let tl = s.unicode_len();
    let p0 = match expect_at(s, 0, "{\"name\":\"") {
        None => {
            return None;
        },
        Some(x) => x,
    };
    let (name, q1) = match scan_at(s, p0) {
        None => {
            return None;
        },
        Some(x) => x,
    };
    let p1 = match expect_at(s, q1, "\",\"flavor\":\"") {
        None => {
            return None;
        },
        Some(x) => x,
    };
    let (flavor, q2) = match scan_at(s, p1) {
        None => {
            return None;
        },
        Some(x) => x,
    };
    let p2 = match expect_at(s, q2, "\",\"mode\":\"") {
        None => {
            return None;
        },
        Some(x) => x,
    };
    let (ms, q3) = match scan_at(s, p2) {
        None => {
            return None;
        },
        Some(x) => x,
    };
    let mode = match mode_of_name(ms.as_str()) {
        None => {
            return None;
        },
        Some(m) => m,
    };
    let p3 = match expect_at(s, q3, "\",\"variant\":\"") {
        None => {
            return None;
        },
        Some(x) => x,
    };
    let (vs, q4) = match scan_at(s, p3) {
        None => {
            return None;
        },
        Some(x) => x,
    };
    let variant = match variant_of_name(vs.as_str()) {
        None => {
            return None;
        },
        Some(v) => v,
    };
    let p4 = match expect_at(s, q4, "\",\"colors\":{") {
        None => {
            return None;
        },
        Some(x) => x,
    };
    let (colors, p5) = match parse_colors_at(s, p4) {
        None => {
            return None;
        },
        Some(x) => x,
    };
    let p6 = match expect_at(s, p5, "}") {
        None => {
            return None;
        },
        Some(x) => x,
    };
    if p6 != tl {
        return None;
    }
    let st = SchemeState { name, flavor, mode, variant, colors };
    proof {
        assert(spec_parse_state(s@) == Some(state_view(st)));
    }
    Some(st)
}

/// Whether a record is the documented default.
pub open spec fn is_default_state(st: SchemeState) -> bool {
    &&& st.name@ == "svelte"@
    &&& st.flavor@ == "default"@
    &&& st.mode == Mode::Dark
    &&& st.variant == Variant::Tonalspot
    &&& st.colors.view() == Seq::<(Seq<char>, Seq<char>)>::empty()
}

/// Loads the state from a file's content. A missing or corrupt file
/// yields the documented default and asks the caller to rewrite it.
pub fn load_state(content: Option<&String>) -> (r: (SchemeState, bool))
    ensures
        r.0.wf(),
        match content {
            None => r.1 && is_default_state(r.0),
            Some(s) => match spec_parse_state(s@) {
                Some(v) => !r.1 && state_view(r.0) == v,
                None => r.1 && is_default_state(r.0),
            },
        },
{
    match content {
        None => (SchemeState::default(), true),
        Some(s) => match parse_state(s.as_str()) {
            Some(st) => (st, false),
            None => (SchemeState::default(), true),
        },
    }
}

/// A well-formed record's saved text loads back to the same record:
/// what `serialize_state` wrote, `parse_state` reads, so a save
/// followed by a load returns an equal state.
pub proof fn lemma_store_round_trip(st: SchemeState)
    requires
        st.wf(),
    ensures
        spec_parse_state(state_json(state_view(st))) == Some(state_view(st)),
{
    lemma_state_round_trip(state_view(st));
}

/// The default record's canonical text parses back to it: a rewrite
/// after a fallback leaves a readable state file behind.
pub proof fn lemma_default_state_round_trip(st: SchemeState)
    requires
        is_default_state(st),
    ensures
        spec_parse_state(state_json(state_view(st))) == Some(state_view(st)),
{
    reveal_strlit("svelte");
    reveal_strlit("default");
    assert(json_safe(st.name@));
    assert(json_safe(st.flavor@));
    assert(keys_unique(state_view(st).colors));
    lemma_state_round_trip(state_view(st));
}

} // verus!
