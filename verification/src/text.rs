//! Verified helpers for building and comparing strings.

use vstd::prelude::*;
use vstd::string::StrSliceExecFns;
use vstd::string::StringExecFns;

verus! {

/// Appends one character to a string.
/// Relies on `String::push`: the std documentation states that it
/// appends the given char to the end of the string.
#[verifier::external_body]
pub fn push_char(s: &mut String, c: char)
    ensures
        final(s)@ == old(s)@.push(c),
{
    s.push(c);
}

/// Character-wise string equality.
pub fn str_eq(a: &str, b: &str) -> (r: bool)
    ensures
        r == (a@ == b@),
{
    let alen = a.unicode_len();
    let blen = b.unicode_len();
    if alen != blen {
        proof {
            if a@ == b@ {
                assert(a@.len() == b@.len());
            }
        }
        return false;
    }
    let mut i: usize = 0;
    while i < alen
        invariant
            alen == a@.len(),
            alen == b@.len(),
            i <= alen,
            forall|k: int| 0 <= k < i ==> a@[k] == b@[k],
        decreases alen - i,
    {
        let ca = a.get_char(i);
        let cb = b.get_char(i);
        if ca != cb {
            return false;
        }
        i = i + 1;
    }
    proof {
        assert(a@ =~= b@);
    }
    true
}

/// Strict lexicographic order on character sequences, by scalar value.
pub open spec fn lex_lt(a: Seq<char>, b: Seq<char>) -> bool
    decreases a.len(),
{
    if b.len() == 0 {
        false
    } else if a.len() == 0 {
        true
    } else if (a[0] as u32) < (b[0] as u32) {
        true
    } else if a[0] == b[0] {
        lex_lt(a.skip(1), b.skip(1))
    } else {
        false
    }
}

pub proof fn lemma_lex_lt_total(a: Seq<char>, b: Seq<char>)
    ensures
        !lex_lt(a, b) && !lex_lt(b, a) ==> a =~= b,
    decreases a.len(),
{
    if !lex_lt(a, b) && !lex_lt(b, a) {
        if b.len() == 0 {
            assert(a.len() == 0);
        } else if a.len() == 0 {
        } else {
            assert(a[0] as u32 == b[0] as u32) by {
                if (a[0] as u32) < (b[0] as u32) {
                } else if (b[0] as u32) < (a[0] as u32) {
                }
            }
            assert(a[0] == b[0]) by {
                vstd::utf8::char_u32_cast(a[0], a[0] as u32);
                vstd::utf8::char_u32_cast(b[0], b[0] as u32);
            }
            lemma_lex_lt_total(a.skip(1), b.skip(1));
            assert(a.skip(1) =~= b.skip(1));
            assert(a =~= seq![a[0]] + a.skip(1));
            assert(b =~= seq![b[0]] + b.skip(1));
        }
    }
}

pub proof fn lemma_lex_lt_irrefl(a: Seq<char>)
    ensures
        !lex_lt(a, a),
    decreases a.len(),
{
    if a.len() > 0 {
        lemma_lex_lt_irrefl(a.skip(1));
    }
}

pub proof fn lemma_lex_lt_trans(a: Seq<char>, b: Seq<char>, c: Seq<char>)
    requires
        lex_lt(a, b),
        lex_lt(b, c),
    ensures
        lex_lt(a, c),
    decreases a.len() + b.len() + c.len(),
{
    if a.len() == 0 {
        assert(c.len() > 0);
    } else {
        assert(b.len() > 0);
        assert(c.len() > 0);
        if (a[0] as u32) < (b[0] as u32) {
            if (b[0] as u32) < (c[0] as u32) {
            } else {
                assert(b[0] == c[0]);
            }
        } else {
            assert(a[0] == b[0]);
            if (b[0] as u32) < (c[0] as u32) {
                assert((a[0] as u32) < (c[0] as u32));
            } else {
                assert(b[0] == c[0]);
                assert(a[0] == c[0]);
                lemma_lex_lt_trans(a.skip(1), b.skip(1), c.skip(1));
            }
        }
    }
}

/// Executable lexicographic comparison.
pub fn str_lex_lt(a: &str, b: &str) -> (r: bool)
    ensures
        r == lex_lt(a@, b@),
{
    let alen = a.unicode_len();
    let blen = b.unicode_len();
    let mut i: usize = 0;
    proof {
        assert(a@.skip(0) =~= a@);
        assert(b@.skip(0) =~= b@);
    }
    loop
        invariant
            alen == a@.len(),
            blen == b@.len(),
            i <= alen,
            i <= blen,
            lex_lt(a@, b@) == lex_lt(a@.skip(i as int), b@.skip(i as int)),
        decreases alen - i,
    {
        if i == blen {
            proof {
                assert(b@.skip(i as int).len() == 0);
            }
            return false;
        }
        if i == alen {
            proof {
                assert(a@.skip(i as int).len() == 0);
                assert(b@.skip(i as int).len() > 0);
            }
            return true;
        }
        let ca = a.get_char(i);
        let cb = b.get_char(i);
        proof {
            assert(a@.skip(i as int)[0] == a@[i as int]);
            assert(b@.skip(i as int)[0] == b@[i as int]);
            assert(a@.skip(i as int).skip(1) =~= a@.skip(i as int + 1));
            assert(b@.skip(i as int).skip(1) =~= b@.skip(i as int + 1));
        }
        if (ca as u32) < (cb as u32) {
            return true;
        }
        if ca != cb {
            proof {
                vstd::utf8::char_u32_cast(ca, ca as u32);
                vstd::utf8::char_u32_cast(cb, cb as u32);
                assert((ca as u32) != (cb as u32));
            }
            return false;
        }
        i = i + 1;
    }
}

/// Lowercasing of one ASCII letter; other characters are unchanged.
pub open spec fn lower_char(c: char) -> char {
    if 'A' as u32 <= c as u32 && c as u32 <= 'Z' as u32 {
        ((c as u32) + 32) as char
    } else {
        c
    }
}

/// The sequence with every ASCII letter lowercased.
pub open spec fn lower_seq(s: Seq<char>) -> Seq<char> {
    s.map_values(|c: char| lower_char(c))
}

/// Executable ASCII lowercasing of one character.
pub fn to_lower_char(c: char) -> (r: char)
    ensures
        r == lower_char(c),
{
    match c {
        'A' => 'a',
        'B' => 'b',
        'C' => 'c',
        'D' => 'd',
        'E' => 'e',
        'F' => 'f',
        'G' => 'g',
        'H' => 'h',
        'I' => 'i',
        'J' => 'j',
        'K' => 'k',
        'L' => 'l',
        'M' => 'm',
        'N' => 'n',
        'O' => 'o',
        'P' => 'p',
        'Q' => 'q',
        'R' => 'r',
        'S' => 's',
        'T' => 't',
        'U' => 'u',
        'V' => 'v',
        'W' => 'w',
        'X' => 'x',
        'Y' => 'y',
        'Z' => 'z',
        _ => {
            proof {
                vstd::utf8::char_u32_cast(c, c as u32);
            }
            c
        },
    }
}

/// ASCII-lowercased copy of a string.
pub fn ascii_lower(s: &str) -> (r: String)
    ensures
        r@ == lower_seq(s@),
{
    let len = s.unicode_len();
    let mut out = String::new();
    let mut i: usize = 0;
    while i < len
        invariant
            len == s@.len(),
            i <= len,
            out@ =~= lower_seq(s@).take(i as int),
        decreases len - i,
    {
        let c = s.get_char(i);
        let lc = to_lower_char(c);
        push_char(&mut out, lc);
        proof {
            assert(out@ =~= lower_seq(s@).take(i as int + 1));
        }
        i = i + 1;
    }
    proof {
        assert(out@ =~= lower_seq(s@));
    }
    out
}

/// Decimal digits of a nonnegative integer.
pub open spec fn dec_digit(d: int) -> char {
    if d == 0 {
        '0'
    } else if d == 1 {
        '1'
    } else if d == 2 {
        '2'
    } else if d == 3 {
        '3'
    } else if d == 4 {
        '4'
    } else if d == 5 {
        '5'
    } else if d == 6 {
        '6'
    } else if d == 7 {
        '7'
    } else if d == 8 {
        '8'
    } else {
        '9'
    }
}

pub open spec fn spec_dec(n: int) -> Seq<char>
    decreases n,
{
    if n < 10 {
        seq![dec_digit(n)]
    } else {
        spec_dec(n / 10).push(dec_digit(n % 10))
    }
}

pub(crate) fn dec_digit_exec(d: u8) -> (r: char)
    requires
        d < 10,
    ensures
        r == dec_digit(d as int),
{
    match d {
        0 => '0',
        1 => '1',
        2 => '2',
        3 => '3',
        4 => '4',
        5 => '5',
        6 => '6',
        7 => '7',
        8 => '8',
        _ => '9',
    }
}

/// Decimal rendering of a byte value.
pub fn dec_u8(n: u8) -> (r: String)
    ensures
        r@ == spec_dec(n as int),
{
    let mut out = String::new();
    if n < 10 {
        push_char(&mut out, dec_digit_exec(n));
        proof {
            assert(out@ =~= spec_dec(n as int));
        }
    } else if n < 100 {
        push_char(&mut out, dec_digit_exec(n / 10));
        push_char(&mut out, dec_digit_exec(n % 10));
        proof {
            assert(n / 10 < 10);
            assert(spec_dec(n as int) == spec_dec(n as int / 10).push(dec_digit(n as int % 10)));
            assert(out@ =~= spec_dec(n as int));
        }
    } else {
        push_char(&mut out, dec_digit_exec(n / 100));
        push_char(&mut out, dec_digit_exec((n / 10) % 10));
        push_char(&mut out, dec_digit_exec(n % 10));
        proof {
            assert(n as int / 10 / 10 == n as int / 100);
            assert(spec_dec(n as int) == spec_dec(n as int / 10).push(dec_digit(n as int % 10)));
            assert(spec_dec(n as int / 10) == spec_dec(n as int / 100).push(dec_digit(n as int / 10 % 10)));
            assert(out@ =~= spec_dec(n as int));
        }
    }
    out
}

/// A literal matched at a position, yielding the position after it.
pub open spec fn expect(t: Seq<char>, i: int, lit: Seq<char>) -> Option<int> {
    if 0 <= i && i + lit.len() <= t.len() && t.subrange(i, i + lit.len()) == lit {
        Some(i + lit.len())
    } else {
        None
    }
}

/// Matches a literal at a byte-free, character position.
pub(crate) fn expect_at(t: &str, i: usize, lit: &str) -> (r: Option<usize>)
    ensures
        match r {
            Some(n) => expect(t@, i as int, lit@) == Some(n as int) && n as int == i + lit@.len()
                && n <= t@.len(),
            None => expect(t@, i as int, lit@) == None::<int>,
        },
{
    let tl = t.unicode_len();
    let ll = lit.unicode_len();
    if i > tl || ll > tl - i {
        return None;
    }
    let mut k: usize = 0;
    while k < ll
        invariant
            tl == t@.len(),
            ll == lit@.len(),
            i + ll <= tl,
            k <= ll,
            forall|m: int| 0 <= m < k ==> t@[i + m] == lit@[m],
        decreases ll - k,
    {
        let ca = t.get_char(i + k);
        let cb = lit.get_char(k);
        if ca != cb {
            proof {
                assert(t@.subrange(i as int, i as int + ll)[k as int] == t@[i + k]);
                assert(t@.subrange(i as int, i as int + ll) != lit@);
            }
            return None;
        }
        k = k + 1;
    }
    proof {
        assert(t@.subrange(i as int, i as int + ll) =~= lit@);
    }
    Some(i + ll)
}

} // verus!
