//! Terminal live-apply: OSC escape sequences for the foreground,
//! background, cursor, selection and the sixteen ANSI color slots,
//! plus three extended indices.

use vstd::prelude::*;
use crate::colormap::ColorMap;
use crate::colormap::Entries;
use crate::colormap::map_lookup;
use crate::text::push_char;
use crate::text::spec_dec;
use crate::text::dec_u8;
use vstd::string::StrSliceExecFns;
use vstd::string::StringExecFns;

verus! {

/// A token's color value, or the fallback.
pub open spec fn color_of(m: Entries, k: Seq<char>) -> Seq<char> {
    match map_lookup(m, k) {
        Some(v) => v,
        None => "000000"@,
    }
}

/// Every color value in the map has at least six characters.
pub open spec fn values_ok(m: Entries) -> bool {
    forall|i: int| 0 <= i < m.len() ==> (#[trigger] m[i].1).len() >= 6
}

proof fn lemma_lookup_value(m: Entries, k: Seq<char>)
    requires
        values_ok(m),
    ensures
        color_of(m, k).len() >= 6,
    decreases m.len(),
{
    reveal_strlit("000000");
    if m.len() == 0 {
    } else if m[0].0 == k {
        assert(m[0].1.len() >= 6);
    } else {
        assert(values_ok(m.skip(1))) by {
            assert forall|i: int| 0 <= i < m.skip(1).len() implies (#[trigger] m.skip(
                1,
            )[i].1).len() >= 6 by {
                assert(m.skip(1)[i] == m[i + 1]);
            }
        }
        lemma_lookup_value(m.skip(1), k);
    }
}

/// One OSC assignment: `ESC ] idx… ; rgb:RR/GG/BB ESC \`, with the
/// first six characters of the color split into pairs.
pub open spec fn spec_c2s(c: Seq<char>, idx: Seq<u8>) -> Seq<char> {
    seq!['\x1b', ']'] + spec_dec(idx[0] as int) + seq![';'] + (if idx.len() == 2 {
        spec_dec(idx[1] as int) + seq![';']
    } else {
        Seq::empty()
    }) + "rgb:"@ + c.subrange(0, 2) + seq!['/'] + c.subrange(2, 4) + seq!['/'] + c.subrange(4, 6)
        + seq!['\x1b', '\\']
}

/// Writes one OSC color assignment.
pub fn c2s(c: &str, idx: &Vec<u8>) -> (r: String)
    requires
        c@.len() >= 6,
        1 <= idx@.len() <= 2,
    ensures
        r@ == spec_c2s(c@, idx@),
{
    let mut out = String::new();
    push_char(&mut out, '\x1b');
    push_char(&mut out, ']');
    let d0 = dec_u8(idx[0]);
    out.append(d0.as_str());
    push_char(&mut out, ';');
    if idx.len() == 2 {
        let d1 = dec_u8(idx[1]);
        out.append(d1.as_str());
        push_char(&mut out, ';');
    }
    out.append("rgb:");
    out.append(c.substring_char(0, 2));
    push_char(&mut out, '/');
    out.append(c.substring_char(2, 4));
    push_char(&mut out, '/');
    out.append(c.substring_char(4, 6));
    push_char(&mut out, '\x1b');
    push_char(&mut out, '\\');
    proof {
        assert(out@ =~= spec_c2s(c@, idx@));
    }
    out
}

/// The full escape-sequence set, in the fixed order terminals expect:
/// OSC 10, 11, 12, 17, then OSC 4 for slots 0..15, then indices
/// 16, 17 and 18 bound to primary, secondary and tertiary.
pub open spec fn spec_gen_sequences(m: Entries) -> Seq<char> {
    spec_c2s(color_of(m, "onSurface"@), seq![10u8]) + spec_c2s(color_of(m, "surface"@), seq![11u8])
        + spec_c2s(color_of(m, "secondary"@), seq![12u8]) + spec_c2s(
        color_of(m, "secondary"@),
        seq![17u8],
    ) + spec_c2s(color_of(m, "term0"@), seq![4u8, 0u8]) + spec_c2s(
        color_of(m, "term1"@),
        seq![4u8, 1u8],
    ) + spec_c2s(color_of(m, "term2"@), seq![4u8, 2u8]) + spec_c2s(
        color_of(m, "term3"@),
        seq![4u8, 3u8],
    ) + spec_c2s(color_of(m, "term4"@), seq![4u8, 4u8]) + spec_c2s(
        color_of(m, "term5"@),
        seq![4u8, 5u8],
    ) + spec_c2s(color_of(m, "term6"@), seq![4u8, 6u8]) + spec_c2s(
        color_of(m, "term7"@),
        seq![4u8, 7u8],
    ) + spec_c2s(color_of(m, "term8"@), seq![4u8, 8u8]) + spec_c2s(
        color_of(m, "term9"@),
        seq![4u8, 9u8],
    ) + spec_c2s(color_of(m, "term10"@), seq![4u8, 10u8]) + spec_c2s(
        color_of(m, "term11"@),
        seq![4u8, 11u8],
    ) + spec_c2s(color_of(m, "term12"@), seq![4u8, 12u8]) + spec_c2s(
        color_of(m, "term13"@),
        seq![4u8, 13u8],
    ) + spec_c2s(color_of(m, "term14"@), seq![4u8, 14u8]) + spec_c2s(
        color_of(m, "term15"@),
        seq![4u8, 15u8],
    ) + spec_c2s(color_of(m, "primary"@), seq![4u8, 16u8]) + spec_c2s(
        color_of(m, "secondary"@),
        seq![4u8, 17u8],
    ) + spec_c2s(color_of(m, "tertiary"@), seq![4u8, 18u8])
}

/// Looks a token up for the generator, falling back to `000000`.
fn color6(colors: &ColorMap, k: &str) -> (r: String)
    requires
        values_ok(colors.view()),
    ensures
        r@ == color_of(colors.view(), k@),
        r@.len() >= 6,
{
    proof {
        lemma_lookup_value(colors.view(), k@);
    }
    match colors.get(k) {
        Some(v) => v,
        None => String::from_str("000000"),
    }
}

/// Appends one single-index assignment.
fn push_seq1(out: &mut String, colors: &ColorMap, k: &str, i0: u8)
    requires
        values_ok(colors.view()),
    ensures
        final(out)@ == old(out)@ + spec_c2s(color_of(colors.view(), k@), seq![i0]),
{
    let c = color6(colors, k);
    let mut idx: Vec<u8> = Vec::new();
    idx.push(i0);
    let s = c2s(c.as_str(), &idx);
    proof {
        assert(idx@ =~= seq![i0]);
    }
    out.append(s.as_str());
}

/// Appends one double-index assignment.
fn push_seq2(out: &mut String, colors: &ColorMap, k: &str, i0: u8, i1: u8)
    requires
        values_ok(colors.view()),
    ensures
        final(out)@ == old(out)@ + spec_c2s(color_of(colors.view(), k@), seq![i0, i1]),
{
    let c = color6(colors, k);
    let mut idx: Vec<u8> = Vec::new();
    idx.push(i0);
    idx.push(i1);
    let s = c2s(c.as_str(), &idx);
    proof {
        assert(idx@ =~= seq![i0, i1]);
    }
    out.append(s.as_str());
}

/// Generates the terminal escape-sequence set for a color map.
pub fn gen_sequences(colors: &ColorMap) -> (r: String)
    requires
        values_ok(colors.view()),
    ensures
        r@ == spec_gen_sequences(colors.view()),
{
    let mut out = String::new();
    push_seq1(&mut out, colors, "onSurface", 10);
    push_seq1(&mut out, colors, "surface", 11);
    push_seq1(&mut out, colors, "secondary", 12);
    push_seq1(&mut out, colors, "secondary", 17);
    push_seq2(&mut out, colors, "term0", 4, 0);
    push_seq2(&mut out, colors, "term1", 4, 1);
    push_seq2(&mut out, colors, "term2", 4, 2);
    push_seq2(&mut out, colors, "term3", 4, 3);
    push_seq2(&mut out, colors, "term4", 4, 4);
    push_seq2(&mut out, colors, "term5", 4, 5);
    push_seq2(&mut out, colors, "term6", 4, 6);
    push_seq2(&mut out, colors, "term7", 4, 7);
    push_seq2(&mut out, colors, "term8", 4, 8);
    push_seq2(&mut out, colors, "term9", 4, 9);
    push_seq2(&mut out, colors, "term10", 4, 10);
    push_seq2(&mut out, colors, "term11", 4, 11);
    push_seq2(&mut out, colors, "term12", 4, 12);
    push_seq2(&mut out, colors, "term13", 4, 13);
    push_seq2(&mut out, colors, "term14", 4, 14);
    push_seq2(&mut out, colors, "term15", 4, 15);
    push_seq2(&mut out, colors, "primary", 4, 16);
    push_seq2(&mut out, colors, "secondary", 4, 17);
    push_seq2(&mut out, colors, "tertiary", 4, 18);
    proof {
        assert(Seq::<char>::empty() + spec_c2s(color_of(colors.view(), "onSurface"@), seq![10u8])
            =~= spec_c2s(color_of(colors.view(), "onSurface"@), seq![10u8]));
    }
    out
}

/// Whether a device file name is all ASCII digits, as the numbered
/// pseudo-terminal entries are.
pub fn is_pty_name(s: &str) -> (r: bool)
    ensures
        r == (forall|i: int|
            0 <= i < s@.len() ==> 48 <= #[trigger] (s@[i] as u32) && s@[i] as u32 <= 57),
{
    let n = s.unicode_len();
    let mut i: usize = 0;
    while i < n
        invariant
            n == s@.len(),
            i <= n,
            forall|j: int| 0 <= j < i ==> 48 <= #[trigger] (s@[j] as u32) && s@[j] as u32 <= 57,
        decreases n - i,
    {
        let c = s.get_char(i);
        let cv = c as u32;
        if cv < 48 || cv > 57 {
            return false;
        }
        i = i + 1;
    }
    true
}

} // verus!
