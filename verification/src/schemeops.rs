//! Scheme selection and listing: applying explicit or random choices
//! to the state, sorted name lists, and the listing output texts.

use vstd::prelude::*;
use crate::colormap::ColorMap;
use crate::colormap::Entries;
use crate::codec::colors_json;
use crate::model::Mode;
use crate::model::SchemeState;
use crate::model::Variant;
use crate::text::lex_lt;
use crate::text::push_char;
use crate::text::spec_dec;
use crate::text::str_eq;
use crate::text::str_lex_lt;
use vstd::seq_lib::lemma_multiset_commutative;
use vstd::string::StringExecFns;

verus! {

/// Overrides the state's fields with the values that were supplied.
pub fn apply_set_args(
    st: &SchemeState,
    name: Option<String>,
    flavor: Option<String>,
    mode: Option<Mode>,
    variant: Option<Variant>,
) -> (r: SchemeState)
    ensures
        (match name {
            Some(n) => r.name@ == n@,
            None => r.name@ == st.name@,
        }),
        (match flavor {
            Some(f) => r.flavor@ == f@,
            None => r.flavor@ == st.flavor@,
        }),
        (match mode {
            Some(m) => r.mode == m,
            None => r.mode == st.mode,
        }),
        (match variant {
            Some(v) => r.variant == v,
            None => r.variant == st.variant,
        }),
        r.colors.view() == st.colors.view(),
{
    SchemeState {
        name: match name {
            Some(n) => n,
            None => st.name.clone(),
        },
        flavor: match flavor {
            Some(f) => f,
            None => st.flavor.clone(),
        },
        mode: match mode {
            Some(m) => m,
            None => st.mode,
        },
        variant: match variant {
            Some(v) => v,
            None => st.variant,
        },
        colors: st.colors.duplicate(),
    }
}

/// Replaces the state's colors with a freshly resolved map.
pub fn set_colors(st: &SchemeState, colors: ColorMap) -> (r: SchemeState)
    ensures
        r.name@ == st.name@,
        r.flavor@ == st.flavor@,
        r.mode == st.mode,
        r.variant == st.variant,
        r.colors == colors,
{
    SchemeState {
        name: st.name.clone(),
        flavor: st.flavor.clone(),
        mode: st.mode,
        variant: st.variant,
        colors,
    }
}

/// The random pool for a scheme draw: every name but `dynamic`.
pub open spec fn non_dynamic_pred() -> spec_fn(Seq<char>) -> bool {
    |s: Seq<char>| s != "dynamic"@
}

/// Drops the synthetic `dynamic` name from a name list.
pub fn retain_non_dynamic(names: &Vec<String>) -> (r: Vec<String>)
    ensures
        r@.map_values(|s: String| s@) == names@.map_values(|s: String| s@).filter(
            non_dynamic_pred(),
        ),
{
    let mut out: Vec<String> = Vec::new();
    let n = names.len();
    let ghost nv = names@.map_values(|s: String| s@);
    let ghost pred = non_dynamic_pred();
    let mut i: usize = 0;
    proof {
        reveal(Seq::filter);
        assert(nv.take(0) =~= Seq::<Seq<char>>::empty());
        assert(nv.take(0).filter(pred) =~= Seq::<Seq<char>>::empty());
        assert(out@.map_values(|s: String| s@) =~= Seq::<Seq<char>>::empty());
    }
    while i < n
        invariant
            n == nv.len(),
            nv == names@.map_values(|s: String| s@),
            pred == non_dynamic_pred(),
            i <= n,
            out@.map_values(|s: String| s@) == nv.take(i as int).filter(pred),
        decreases n - i,
    {
        let ghost pre = out@.map_values(|s: String| s@);
        if !str_eq(names[i].as_str(), "dynamic") {
            out.push(names[i].clone());
        }
        proof {
            assert(nv.take(i as int).push(nv[i as int]) =~= nv.take(i as int + 1));
            nv.take(i as int).lemma_filter_push(nv[i as int], pred);
            if nv[i as int] != "dynamic"@ {
                assert(out@.map_values(|s: String| s@) =~= pre.push(nv[i as int]));
            }
        }
        i = i + 1;
    }
    proof {
        assert(nv.take(n as int) =~= nv);
    }
    out
}

/// Draws one entry of a non-empty list at random.
pub fn pick_random(list: &Vec<String>) -> (r: Option<String>)
    ensures
        match r {
            Some(p) => exists|i: int| 0 <= i < list@.len() && (#[trigger] list@[i])@ == p@,
            None => list@.len() == 0,
        },
{
    if list.len() == 0 {
        return None;
    }
    let idx = crate::wallpaper::random_index(list.len());
    let p = list[idx].clone();
    proof {
        assert(list@[idx as int]@ == p@);
    }
    Some(p)
}

/// Nondecreasing in the lexicographic order.
pub open spec fn sorted_strs(s: Seq<Seq<char>>) -> bool {
    forall|i: int, j: int| 0 <= i < j < s.len() ==> !lex_lt(#[trigger] s[j], #[trigger] s[i])
}

/// The position a new name takes in a sorted list: before the first
/// entry greater than it.
fn insert_pos(out: &Vec<String>, x: &str) -> (p: usize)
    ensures
        p <= out@.len(),
        forall|q: int| 0 <= q < p ==> !lex_lt(x@, (#[trigger] out@[q])@),
        p < out@.len() ==> lex_lt(x@, out@[p as int]@),
{
    let m = out.len();
    let mut p: usize = 0;
    while p < m
        invariant
            m == out@.len(),
            p <= m,
            forall|q: int| 0 <= q < p ==> !lex_lt(x@, (#[trigger] out@[q])@),
        decreases m - p,
    {
        if str_lex_lt(x, out[p].as_str()) {
            return p;
        }
        p = p + 1;
    }
    p
}

proof fn lemma_insert_multiset(s: Seq<Seq<char>>, x: Seq<char>, p: int)
    requires
        0 <= p <= s.len(),
    ensures
        s.insert(p, x).to_multiset() == s.push(x).to_multiset(),
{
    let l = s.take(p);
    let rrest = s.skip(p);
    assert(s.insert(p, x) =~= l + (seq![x] + rrest));
    assert(s.push(x) =~= l + (rrest + seq![x]));
    lemma_multiset_commutative(l, seq![x] + rrest);
    lemma_multiset_commutative(l, rrest + seq![x]);
    lemma_multiset_commutative(seq![x], rrest);
    lemma_multiset_commutative(rrest, seq![x]);
    assert((seq![x] + rrest).to_multiset() =~= (rrest + seq![x]).to_multiset());
    assert(s.insert(p, x).to_multiset() =~= s.push(x).to_multiset());
}

proof fn lemma_insert_order(s: Seq<Seq<char>>, x: Seq<char>, p: int, a: int, b: int)
    requires
        0 <= p <= s.len(),
        sorted_strs(s),
        forall|q: int| 0 <= q < p ==> !lex_lt(x, #[trigger] s[q]),
        p < s.len() ==> lex_lt(x, s[p]),
        0 <= a < b < s.insert(p, x).len(),
    ensures
        !lex_lt(s.insert(p, x)[b], s.insert(p, x)[a]),
{
    let t = s.insert(p, x);
    assert(t.len() == s.len() + 1);
    assert(forall|k: int| 0 <= k < p ==> t[k] == s[k]);
    assert(t[p] == x);
    assert(forall|k: int| p < k < t.len() ==> t[k] == s[k - 1]);
    if a < p && b < p {
    } else if a < p && b == p {
        assert(!lex_lt(x, s[a]));
    } else if a < p && b > p {
        assert(!lex_lt(s[b - 1], s[a]));
    } else if a == p && b > p {
        if lex_lt(s[b - 1], x) {
            assert(p < s.len());
            crate::text::lemma_lex_lt_trans(s[b - 1], x, s[p]);
            if b - 1 > p {
                assert(!lex_lt(s[b - 1], s[p]));
            } else {
                crate::text::lemma_lex_lt_irrefl(s[p]);
            }
        }
    } else {
        assert(a > p && b > p);
        assert(!lex_lt(s[b - 1], s[a - 1]));
    }
}

/// Sorts names lexicographically; the result holds the same names.
pub fn sort_strings(v: &Vec<String>) -> (r: Vec<String>)
    ensures
        sorted_strs(r@.map_values(|s: String| s@)),
        r@.map_values(|s: String| s@).to_multiset() == v@.map_values(
            |s: String| s@,
        ).to_multiset(),
{
    let mut out: Vec<String> = Vec::new();
    let n = v.len();
    let ghost vv = v@.map_values(|s: String| s@);
    let mut i: usize = 0;
    proof {
        assert(out@.map_values(|s: String| s@) =~= Seq::<Seq<char>>::empty());
        assert(vv.take(0) =~= Seq::<Seq<char>>::empty());
        assert(out@.map_values(|s: String| s@).to_multiset() =~= vv.take(0).to_multiset());
    }
    while i < n
        invariant
            n == vv.len(),
            vv == v@.map_values(|s: String| s@),
            i <= n,
            sorted_strs(out@.map_values(|s: String| s@)),
            out@.map_values(|s: String| s@).to_multiset() == vv.take(i as int).to_multiset(),
        decreases n - i,
    {
        let x = v[i].clone();
        let ghost ov = out@.map_values(|s: String| s@);
        let p = insert_pos(&out, x.as_str());
        out.insert(p, x);
        proof {
            let nv2 = out@.map_values(|s: String| s@);
            assert(nv2 =~= ov.insert(p as int, vv[i as int]));
            lemma_insert_multiset(ov, vv[i as int], p as int);
            Seq::<Seq<char>>::to_multiset_ensures(ov);
            assert(vv.take(i as int).push(vv[i as int]) =~= vv.take(i as int + 1));
            Seq::<Seq<char>>::to_multiset_ensures(vv.take(i as int));
            assert(nv2.to_multiset() =~= vv.take(i as int + 1).to_multiset());
            assert(sorted_strs(nv2)) by {
                assert forall|a: int, b: int| 0 <= a < b < nv2.len() implies !lex_lt(
                    #[trigger] nv2[b],
                    #[trigger] nv2[a],
                ) by {
                    lemma_insert_order(ov, vv[i as int], p as int, a, b);
                }
            }
        }
        i = i + 1;
    }
    proof {
        assert(vv.take(n as int) =~= vv);
    }
    out
}

/// Strictly increasing in the lexicographic order: sorted and free
/// of duplicates.
pub open spec fn strictly_sorted_strs(s: Seq<Seq<char>>) -> bool {
    forall|i: int, j: int| 0 <= i < j < s.len() ==> lex_lt(#[trigger] s[i], #[trigger] s[j])
}

/// Removes repeats from a sorted name list: the result is strictly
/// increasing and holds exactly the input's names.
#[verifier::rlimit(100)]
#[verifier::spinoff_prover]
pub fn dedup_sorted(v: &Vec<String>) -> (r: Vec<String>)
    requires
        sorted_strs(v@.map_values(|s: String| s@)),
    ensures
        strictly_sorted_strs(r@.map_values(|s: String| s@)),
        forall|a: int|
            0 <= a < r@.len() ==> v@.map_values(|s: String| s@).contains((#[trigger] r@[a])@),
        forall|j: int|
            0 <= j < v@.len() ==> r@.map_values(|s: String| s@).contains((#[trigger] v@[j])@),
{
    broadcast use vstd::seq_lib::lemma_seq_contains_after_push;

    let mut out: Vec<String> = Vec::new();
    let n = v.len();
    let ghost vv = v@.map_values(|s: String| s@);
    let ghost mut last_idx: int = 0;
    let mut i: usize = 0;
    while i < n
        invariant
            n == vv.len(),
            vv == v@.map_values(|s: String| s@),
            sorted_strs(vv),
            i <= n,
            out@.len() > 0 ==> 0 <= last_idx < i && (out@[out@.len() - 1])@ == vv[last_idx],
            strictly_sorted_strs(out@.map_values(|s: String| s@)),
            forall|a: int|
                0 <= a < out@.len() ==> vv.contains((#[trigger] out@[a])@),
            forall|j: int|
                0 <= j < i ==> out@.map_values(|s: String| s@).contains(#[trigger] vv[j]),
        decreases n - i,
    {
        let m = out.len();
        let fresh = if m == 0 {
            true
        } else {
            !str_eq(out[m - 1].as_str(), v[i].as_str())
        };
        let ghost ov = out@.map_values(|s: String| s@);
        if fresh {
            out.push(v[i].clone());
            proof {
                let nv2 = out@.map_values(|s: String| s@);
                assert(nv2 =~= ov.push(vv[i as int]));
                if m > 0 {
                    assert(!lex_lt(vv[i as int], vv[last_idx]));
                    crate::text::lemma_lex_lt_total(ov[m - 1], vv[i as int]);
                    assert(lex_lt(ov[m - 1], vv[i as int]));
                }
                assert(strictly_sorted_strs(nv2)) by {
                    assert forall|a: int, b: int| 0 <= a < b < nv2.len() implies lex_lt(
                        #[trigger] nv2[a],
                        #[trigger] nv2[b],
                    ) by {
                        if b == m {
                            if a < m - 1 {
                                assert(lex_lt(ov[a], ov[m - 1]));
                                crate::text::lemma_lex_lt_trans(
                                    ov[a],
                                    ov[m - 1],
                                    vv[i as int],
                                );
                            }
                        }
                    }
                }
                assert(vv.contains(vv[i as int]));
                assert forall|a: int| 0 <= a < nv2.len() implies vv.contains(
                    #[trigger] nv2[a],
                ) by {
                    if a < m {
                        assert(nv2[a] == ov[a]);
                    } else {
                        assert(nv2[a] == vv[i as int]);
                    }
                }
                assert forall|j: int| 0 <= j < i + 1 implies nv2.contains(#[trigger] vv[j]) by {
                    if j < i {
                        assert(ov.contains(vv[j]));
                        vstd::seq_lib::lemma_seq_contains_after_push(ov, vv[i as int], vv[j]);
                        assert(ov.push(vv[i as int]).contains(vv[j]));
                    } else {
                        assert(nv2[m as int] == vv[i as int]);
                    }
                }
                last_idx = i as int;
            }
        } else {
            proof {
                assert(ov[m - 1] == vv[i as int]);
                assert forall|j: int| 0 <= j < i + 1 implies ov.contains(#[trigger] vv[j]) by {
                    if j == i as int {
                        assert(ov[m - 1] == vv[j]);
                    }
                }
                last_idx = i as int;
            }
        }
        i = i + 1;
    }
    proof {
        assert forall|j: int| 0 <= j < v@.len() implies out@.map_values(|s: String| s@).contains(
            (#[trigger] v@[j])@,
        ) by {
            assert(vv[j] == (v@[j])@);
            assert(out@.map_values(|s: String| s@).contains(vv[j]));
        }
    }
    out
}

/// One `"key":value` listing entry followed by the later entries,
/// each behind a comma.
pub open spec fn counts_rest_json(cs: Seq<(Seq<char>, int)>) -> Seq<char>
    decreases cs.len(),
{
    if cs.len() == 0 {
        Seq::empty()
    } else {
        seq![','] + (seq!['"'] + cs[0].0 + "\":"@ + spec_dec(cs[0].1) + counts_rest_json(
            cs.skip(1),
        ))
    }
}

/// The counts object's inner text.
pub open spec fn counts_entries_json(cs: Seq<(Seq<char>, int)>) -> Seq<char> {
    if cs.len() == 0 {
        Seq::empty()
    } else {
        seq!['"'] + cs[0].0 + "\":"@ + spec_dec(cs[0].1) + counts_rest_json(cs.skip(1))
    }
}

proof fn lemma_counts_rest_snoc(cs: Seq<(Seq<char>, int)>, e: (Seq<char>, int))
    ensures
        counts_rest_json(cs.push(e)) == counts_rest_json(cs) + (seq![','] + (seq!['"'] + e.0
            + "\":"@ + spec_dec(e.1))),
    decreases cs.len(),
{
    let sp = cs.push(e);
    if cs.len() == 0 {
        assert(sp[0] == e);
        assert(sp.skip(1) =~= Seq::<(Seq<char>, int)>::empty());
        assert(counts_rest_json(sp.skip(1)) == Seq::<char>::empty());
        assert(counts_rest_json(cs.push(e)) =~= counts_rest_json(cs) + (seq![','] + (seq!['"']
            + e.0 + "\":"@ + spec_dec(e.1))));
    } else {
        assert(sp[0] == cs[0]);
        assert(sp.skip(1) =~= cs.skip(1).push(e));
        lemma_counts_rest_snoc(cs.skip(1), e);
        assert(counts_rest_json(cs.push(e)) =~= counts_rest_json(cs) + (seq![','] + (seq!['"']
            + e.0 + "\":"@ + spec_dec(e.1))));
    }
}

/// The editor detection record: the active language and the counts.
pub open spec fn spec_detect_json(active: Seq<char>, cs: Seq<(Seq<char>, int)>) -> Seq<char> {
    "{\"activeLanguage\":\""@ + active + "\",\"counts\":{"@ + counts_entries_json(cs) + "}}"@
}

/// Decimal rendering of a count.
pub fn dec_u64(n: u64) -> (r: String)
    ensures
        r@ == spec_dec(n as int),
    decreases n,
{
    if n < 10 {
        let mut out = String::new();
        push_char(&mut out, crate::text::dec_digit_exec((n % 10) as u8));
        proof {
            assert(out@ =~= spec_dec(n as int));
        }
        out
    } else {
        let mut out = dec_u64(n / 10);
        push_char(&mut out, crate::text::dec_digit_exec((n % 10) as u8));
        proof {
            assert(out@ =~= spec_dec(n as int));
        }
        out
    }
}

/// Writes the editor detection record.
pub fn detect_json(active: &str, counts: &Vec<(String, u64)>) -> (r: String)
    ensures
        r@ == spec_detect_json(
            active@,
            counts@.map_values(|e: (String, u64)| (e.0@, e.1 as int)),
        ),
{
    let mut out = String::from_str("{\"activeLanguage\":\"");
    out.append(active);
    out.append("\",\"counts\":{");
    let n = counts.len();
    let ghost cv = counts@.map_values(|e: (String, u64)| (e.0@, e.1 as int));
    let ghost pre = out@;
    if n > 0 {
        push_char(&mut out, '"');
        out.append(counts[0].0.as_str());
        out.append("\":");
        let d0 = dec_u64(counts[0].1);
        out.append(d0.as_str());
        let mut i: usize = 1;
        proof {
            assert(cv.subrange(1, 1).len() == 0);
            assert(out@ =~= pre + (seq!['"'] + cv[0].0 + "\":"@ + spec_dec(cv[0].1)
                + counts_rest_json(cv.subrange(1, 1))));
        }
        while i < n
            invariant
                n == cv.len(),
                cv == counts@.map_values(|e: (String, u64)| (e.0@, e.1 as int)),
                1 <= i <= n,
                out@ == pre + (seq!['"'] + cv[0].0 + "\":"@ + spec_dec(cv[0].1)
                    + counts_rest_json(cv.subrange(1, i as int))),
            decreases n - i,
        {
            push_char(&mut out, ',');
            push_char(&mut out, '"');
            out.append(counts[i].0.as_str());
            out.append("\":");
            let d = dec_u64(counts[i].1);
            out.append(d.as_str());
            proof {
                assert(cv.subrange(1, i as int).push(cv[i as int]) =~= cv.subrange(
                    1,
                    i as int + 1,
                ));
                lemma_counts_rest_snoc(cv.subrange(1, i as int), cv[i as int]);
                assert(out@ =~= pre + (seq!['"'] + cv[0].0 + "\":"@ + spec_dec(cv[0].1)
                    + counts_rest_json(cv.subrange(1, i as int + 1))));
            }
            i = i + 1;
        }
        proof {
            assert(cv.subrange(1, n as int) =~= cv.skip(1));
        }
    }
    out.append("}}");
    proof {
        if n == 0 {
            assert(counts_entries_json(cv) == Seq::<char>::empty());
        }
        assert(out@ =~= spec_detect_json(active@, cv));
    }
    out
}

/// A flavor's listing entry followed by the later flavors, each
/// behind a comma.
pub open spec fn flavors_rest_json(fs: Seq<(Seq<char>, Entries)>) -> Seq<char>
    decreases fs.len(),
{
    if fs.len() == 0 {
        Seq::empty()
    } else {
        seq![','] + (seq!['"'] + fs[0].0 + "\":"@ + colors_json(fs[0].1) + flavors_rest_json(
            fs.skip(1),
        ))
    }
}

/// The flavor map of one scheme as a JSON object body.
pub open spec fn flavors_json(fs: Seq<(Seq<char>, Entries)>) -> Seq<char> {
    if fs.len() == 0 {
        Seq::empty()
    } else {
        seq!['"'] + fs[0].0 + "\":"@ + colors_json(fs[0].1) + flavors_rest_json(fs.skip(1))
    }
}

proof fn lemma_flavors_rest_snoc(fs: Seq<(Seq<char>, Entries)>, e: (Seq<char>, Entries))
    ensures
        flavors_rest_json(fs.push(e)) == flavors_rest_json(fs) + (seq![','] + (seq!['"'] + e.0
            + "\":"@ + colors_json(e.1))),
    decreases fs.len(),
{
    let sp = fs.push(e);
    if fs.len() == 0 {
        assert(sp[0] == e);
        assert(sp.skip(1) =~= Seq::<(Seq<char>, Entries)>::empty());
        assert(flavors_rest_json(sp.skip(1)) == Seq::<char>::empty());
        assert(flavors_rest_json(fs.push(e)) =~= flavors_rest_json(fs) + (seq![','] + (seq!['"']
            + e.0 + "\":"@ + colors_json(e.1))));
    } else {
        assert(sp[0] == fs[0]);
        assert(sp.skip(1) =~= fs.skip(1).push(e));
        lemma_flavors_rest_snoc(fs.skip(1), e);
        assert(flavors_rest_json(fs.push(e)) =~= flavors_rest_json(fs) + (seq![','] + (seq!['"']
            + e.0 + "\":"@ + colors_json(e.1))));
    }
}

/// Writes one scheme's flavor map for the listing.
pub fn render_flavors(flavors: &Vec<(String, ColorMap)>) -> (r: String)
    ensures
        r@ == flavors_json(
            flavors@.map_values(|f: (String, ColorMap)| (f.0@, f.1.view())),
        ),
{
    let mut out = String::new();
    let n = flavors.len();
    let ghost fv = flavors@.map_values(|f: (String, ColorMap)| (f.0@, f.1.view()));
    if n > 0 {
        push_char(&mut out, '"');
        out.append(flavors[0].0.as_str());
        out.append("\":");
        let c0 = crate::codec::serialize_colors(&flavors[0].1);
        out.append(c0.as_str());
        let mut i: usize = 1;
        proof {
            assert(fv.subrange(1, 1).len() == 0);
            assert(out@ =~= seq!['"'] + fv[0].0 + "\":"@ + colors_json(fv[0].1)
                + flavors_rest_json(fv.subrange(1, 1)));
        }
        while i < n
            invariant
                n == fv.len(),
                fv == flavors@.map_values(|f: (String, ColorMap)| (f.0@, f.1.view())),
                1 <= i <= n,
                out@ == seq!['"'] + fv[0].0 + "\":"@ + colors_json(fv[0].1) + flavors_rest_json(
                    fv.subrange(1, i as int),
                ),
            decreases n - i,
        {
            push_char(&mut out, ',');
            push_char(&mut out, '"');
            out.append(flavors[i].0.as_str());
            out.append("\":");
            let c = crate::codec::serialize_colors(&flavors[i].1);
            out.append(c.as_str());
            proof {
                assert(fv.subrange(1, i as int).push(fv[i as int]) =~= fv.subrange(
                    1,
                    i as int + 1,
                ));
                lemma_flavors_rest_snoc(fv.subrange(1, i as int), fv[i as int]);
                assert(out@ =~= seq!['"'] + fv[0].0 + "\":"@ + colors_json(fv[0].1)
                    + flavors_rest_json(fv.subrange(1, i as int + 1)));
            }
            i = i + 1;
        }
        proof {
            assert(fv.subrange(1, n as int) =~= fv.skip(1));
        }
    }
    proof {
        if n == 0 {
            assert(out@ =~= flavors_json(fv));
        } else {
            assert(out@ =~= flavors_json(fv));
        }
    }
    out
}

/// One scheme's entry in the listing object.
pub fn render_scheme_entry(name: &str, flavors: &Vec<(String, ColorMap)>) -> (r: String)
    ensures
        r@ == seq!['"'] + name@ + "\":{"@ + flavors_json(
            flavors@.map_values(|f: (String, ColorMap)| (f.0@, f.1.view())),
        ) + seq!['}'],
{
    let mut out = String::new();
    push_char(&mut out, '"');
    out.append(name);
    out.append("\":{");
    let body = render_flavors(flavors);
    out.append(body.as_str());
    push_char(&mut out, '}');
    proof {
        assert(out@ =~= seq!['"'] + name@ + "\":{"@ + flavors_json(
            flavors@.map_values(|f: (String, ColorMap)| (f.0@, f.1.view())),
        ) + seq!['}']);
    }
    out
}

/// Comma-joined object items.
pub open spec fn spec_join_comma(items: Seq<Seq<char>>) -> Seq<char>
    decreases items.len(),
{
    if items.len() == 0 {
        Seq::empty()
    } else if items.len() == 1 {
        items[0]
    } else {
        items[0] + seq![','] + spec_join_comma(items.skip(1))
    }
}

proof fn lemma_join_comma_snoc(s: Seq<Seq<char>>, x: Seq<char>)
    requires
        s.len() >= 1,
    ensures
        spec_join_comma(s.push(x)) == spec_join_comma(s) + seq![','] + x,
    decreases s.len(),
{
    let sp = s.push(x);
    assert(sp[0] == s[0]);
    if s.len() == 1 {
        assert(sp.skip(1) =~= seq![x]);
        assert(spec_join_comma(sp.skip(1)) == x);
        assert(spec_join_comma(sp) =~= spec_join_comma(s) + seq![','] + x);
    } else {
        assert(sp.skip(1) =~= s.skip(1).push(x));
        lemma_join_comma_snoc(s.skip(1), x);
        assert(spec_join_comma(sp) == sp[0] + seq![','] + spec_join_comma(sp.skip(1)));
        assert(spec_join_comma(s) == s[0] + seq![','] + spec_join_comma(s.skip(1)));
        assert(spec_join_comma(sp) =~= spec_join_comma(s) + seq![','] + x);
    }
}

/// Wraps ready-made object items in braces, comma-joined: the whole
/// listing object.
pub fn wrap_object(items: &Vec<String>) -> (r: String)
    ensures
        r@ == seq!['{'] + spec_join_comma(items@.map_values(|s: String| s@)) + seq!['}'],
{
    let mut out = String::new();
    push_char(&mut out, '{');
    let n = items.len();
    let ghost iv = items@.map_values(|s: String| s@);
    if n > 0 {
        out.append(items[0].as_str());
        let mut i: usize = 1;
        proof {
            assert(iv.take(1) =~= seq![iv[0]]);
            assert(spec_join_comma(iv.take(1)) == iv[0]);
            assert(out@ =~= seq!['{'] + spec_join_comma(iv.take(1)));
        }
        while i < n
            invariant
                n == iv.len(),
                iv == items@.map_values(|s: String| s@),
                1 <= i <= n,
                out@ == seq!['{'] + spec_join_comma(iv.take(i as int)),
            decreases n - i,
        {
            push_char(&mut out, ',');
            out.append(items[i].as_str());
            proof {
                assert(iv.take(i as int).push(iv[i as int]) =~= iv.take(i as int + 1));
                lemma_join_comma_snoc(iv.take(i as int), iv[i as int]);
                assert(out@ =~= seq!['{'] + spec_join_comma(iv.take(i as int + 1)));
            }
            i = i + 1;
        }
        proof {
            assert(iv.take(n as int) =~= iv);
        }
    }
    push_char(&mut out, '}');
    proof {
        if n == 0 {
            assert(spec_join_comma(iv) == Seq::<char>::empty());
        }
        assert(out@ =~= seq!['{'] + spec_join_comma(iv) + seq!['}']);
    }
    out
}

} // verus!
