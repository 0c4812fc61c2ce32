//! The wallpaper record: path validity, the content hash that keys
//! the thumbnail cache, thumbnail dimensions, random selection, and
//! how a new wallpaper changes the scheme state.

use vstd::prelude::*;
use crate::colormap::ColorMap;
use crate::errors::ErrorKind;
use crate::errors::VelaError;
use crate::model::Mode;
use crate::model::SchemeState;
use crate::model::Variant;
use crate::text::push_char;
use crate::text::str_eq;
use vstd::string::StrSliceExecFns;
use vstd::string::StringExecFns;

verus! {

/// Where the file name starts: one past the last slash.
pub open spec fn base_start(s: Seq<char>) -> int
    decreases s.len(),
{
    if s.len() == 0 {
        0
    } else if s[s.len() - 1] == '/' {
        s.len() as int
    } else {
        base_start(s.take(s.len() - 1))
    }
}

/// The file extension: what follows the last dot of the file name,
/// unless that dot starts the name.
pub open spec fn spec_path_ext(s: Seq<char>) -> Option<Seq<char>> {
    let bn = s.skip(base_start(s));
    match crate::catalog::last_dot(bn) {
        None => None,
        Some(i) => if i == 0 {
            None
        } else {
            Some(bn.skip(i + 1))
        },
    }
}

/// Finds where the file name starts.
fn base_start_at(p: &str) -> (b: usize)
    ensures
        b as int == base_start(p@),
        b <= p@.len(),
{
    let n = p.unicode_len();
    let mut b: usize = n;
    proof {
        assert(p@.take(n as int) =~= p@);
    }
    loop
        invariant
            n == p@.len(),
            b <= n,
            base_start(p@) == base_start(p@.take(b as int)),
        decreases b,
    {
        if b == 0 {
            proof {
                assert(p@.take(0).len() == 0);
            }
            return 0;
        }
        let c = p.get_char(b - 1);
        proof {
            assert(p@.take(b as int)[b - 1] == p@[b - 1]);
            assert(p@.take(b as int).take(b as int - 1) =~= p@.take(b as int - 1));
        }
        if c == '/' {
            proof {
                assert(base_start(p@.take(b as int)) == b as int);
            }
            return b;
        }
        b = b - 1;
    }
}

/// The extension of a path, if its file name has one.
pub fn path_extension(p: &str) -> (r: Option<String>)
    ensures
        match r {
            Some(e) => spec_path_ext(p@) == Some(e@),
            None => spec_path_ext(p@) == None::<Seq<char>>,
        },
{
    let n = p.unicode_len();
    let b = base_start_at(p);
    let ghost bn = p@.skip(b as int);
    // find the last dot of the file name
    let mut d: usize = n;
    proof {
        assert(bn.take(n - b as int) =~= bn);
    }
    loop
        invariant
            n == p@.len(),
            b <= d <= n,
            bn == p@.skip(b as int),
            b as int == base_start(p@),
            crate::catalog::last_dot(bn) == crate::catalog::last_dot(bn.take(d - b as int)),
        decreases d,
    {
        if d == b {
            proof {
                assert(bn.take(0).len() == 0);
            }
            return None;
        }
        let c = p.get_char(d - 1);
        proof {
            assert(bn.take(d - b as int)[d - 1 - b as int] == bn[d - 1 - b as int]);
            assert(bn[d - 1 - b as int] == p@[d - 1]);
            assert(bn.take(d - b as int).take(d - 1 - b as int) =~= bn.take(d - 1 - b as int));
        }
        if c == '.' {
            proof {
                assert(crate::catalog::last_dot(bn) == Some(d - 1 - b as int));
            }
            if d - 1 == b {
                return None;
            }
            let e = p.substring_char(d, n).to_owned();
            proof {
                assert(bn.skip(d - 1 - b as int + 1) =~= p@.subrange(d as int, n as int));
            }
            return Some(e);
        }
        d = d - 1;
    }
}

/// Whether a path names an image the tool accepts, by extension.
pub open spec fn spec_valid_image(s: Seq<char>) -> bool {
    match spec_path_ext(s) {
        Some(e) => e == "jpg"@ || e == "jpeg"@ || e == "png"@ || e == "webp"@ || e == "tif"@ || e
            == "tiff"@,
        None => false,
    }
}

/// Accepts the image file types the wallpaper tools handle.
pub fn is_valid_image(p: &str) -> (r: bool)
    ensures
        r == spec_valid_image(p@),
{
    match path_extension(p) {
        None => false,
        Some(e) => {
            let s = e.as_str();
            str_eq(s, "jpg") || str_eq(s, "jpeg") || str_eq(s, "png") || str_eq(s, "webp")
                || str_eq(s, "tif") || str_eq(s, "tiff")
        },
    }
}

/// The image-acceptance predicate, as a function value.
pub open spec fn valid_image_pred() -> spec_fn(Seq<char>) -> bool {
    |s: Seq<char>| spec_valid_image(s)
}

/// Keeps the paths that name images.
pub fn filter_wallpapers(paths: &Vec<String>) -> (r: Vec<String>)
    ensures
        r@.map_values(|p: String| p@) == paths@.map_values(|p: String| p@).filter(
            valid_image_pred(),
        ),
{
    let mut out: Vec<String> = Vec::new();
    let n = paths.len();
    let ghost pv = paths@.map_values(|p: String| p@);
    let ghost pred = valid_image_pred();
    let mut i: usize = 0;
    proof {
        reveal(Seq::filter);
        assert(pv.take(0) =~= Seq::<Seq<char>>::empty());
        assert(pv.take(0).filter(pred) =~= Seq::<Seq<char>>::empty());
        assert(out@.map_values(|p: String| p@) =~= Seq::<Seq<char>>::empty());
    }
    while i < n
        invariant
            n == pv.len(),
            pv == paths@.map_values(|p: String| p@),
            pred == valid_image_pred(),
            i <= n,
            out@.map_values(|p: String| p@) == pv.take(i as int).filter(pred),
        decreases n - i,
    {
        let ghost pre = out@.map_values(|p: String| p@);
        if is_valid_image(paths[i].as_str()) {
            out.push(paths[i].clone());
        }
        proof {
            assert(pv.take(i as int).push(pv[i as int]) =~= pv.take(i as int + 1));
            pv.take(i as int).lemma_filter_push(pv[i as int], pred);
            if spec_valid_image(pv[i as int]) {
                assert(out@.map_values(|p: String| p@) =~= pre.push(pv[i as int]));
            }
        }
        i = i + 1;
    }
    proof {
        assert(pv.take(n as int) =~= pv);
    }
    out
}

/// The thumbnail dimensions: both sides repeatedly halved, but never
/// below one, until they fit 128 pixels.
pub open spec fn spec_thumb_dims(w: int, h: int) -> (int, int)
    decreases w + h,
{
    if w <= 0 || h <= 0 {
        (w, h)
    } else if w <= 128 && h <= 128 {
        (w, h)
    } else {
        spec_thumb_dims(if w / 2 >= 1 { w / 2 } else { 1 }, if h / 2 >= 1 { h / 2 } else { 1 })
    }
}

pub fn thumb_dims(w: u32, h: u32) -> (r: (u32, u32))
    requires
        w >= 1,
        h >= 1,
    ensures
        (r.0 as int, r.1 as int) == spec_thumb_dims(w as int, h as int),
        1 <= r.0 <= 128,
        1 <= r.1 <= 128,
{
    let mut cw = w;
    let mut ch = h;
    while cw > 128 || ch > 128
        invariant
            cw >= 1,
            ch >= 1,
            spec_thumb_dims(w as int, h as int) == spec_thumb_dims(cw as int, ch as int),
        decreases cw + ch,
    {
        cw = if cw / 2 >= 1 {
            cw / 2
        } else {
            1
        };
        ch = if ch / 2 >= 1 {
            ch / 2
        } else {
            1
        };
    }
    (cw, ch)
}

/// What the SHA-256 digest of a byte string is: a pure function of
/// the bytes alone.
pub uninterp spec fn sha256_of(data: Seq<u8>) -> Seq<u8>;

/// Relies on sha2::Sha256::digest: the 32-byte digest depends on the
/// input bytes alone.
#[verifier::external_body]
fn sha256(data: &Vec<u8>) -> (r: Vec<u8>)
    ensures
        r@ == sha256_of(data@),
        r@.len() == 32,
{
    <sha2::Sha256 as sha2::Digest>::digest(data.as_slice()).to_vec()
}

/// The lowercase hex digit of a nibble.
pub open spec fn hex_digit(d: int) -> char {
    if d == 0 {
        '0'
    } else if d == 1 {
        '1'
    } else if d == 2 {
        '2'
    } else if d == 3 {
        '3'
    } else if d == 4 {
        '4'
    } else if d == 5 {
        '5'
    } else if d == 6 {
        '6'
    } else if d == 7 {
        '7'
    } else if d == 8 {
        '8'
    } else if d == 9 {
        '9'
    } else if d == 10 {
        'a'
    } else if d == 11 {
        'b'
    } else if d == 12 {
        'c'
    } else if d == 13 {
        'd'
    } else if d == 14 {
        'e'
    } else {
        'f'
    }
}

/// Two lowercase hex digits per byte, in order.
pub open spec fn spec_hex(bs: Seq<u8>) -> Seq<char>
    decreases bs.len(),
{
    if bs.len() == 0 {
        Seq::empty()
    } else {
        seq![hex_digit(bs[0] as int / 16), hex_digit(bs[0] as int % 16)] + spec_hex(bs.skip(1))
    }
}

fn hex_digit_exec(d: u8) -> (r: char)
    requires
        d < 16,
    ensures
        r == hex_digit(d as int),
{
    match d {
        0 => '0',
        1 => '1',
        2 => '2',
        3 => '3',
        4 => '4',
        5 => '5',
        6 => '6',
        7 => '7',
        8 => '8',
        9 => '9',
        10 => 'a',
        11 => 'b',
        12 => 'c',
        13 => 'd',
        14 => 'e',
        _ => 'f',
    }
}

pub proof fn lemma_spec_hex_len(bs: Seq<u8>)
    ensures
        spec_hex(bs).len() == 2 * bs.len(),
    decreases bs.len(),
{
    if bs.len() > 0 {
        lemma_spec_hex_len(bs.skip(1));
    }
}

/// Encodes bytes as lowercase hex.
pub fn hex_encode(data: &Vec<u8>) -> (r: String)
    ensures
        r@ == spec_hex(data@),
        r@.len() == 2 * data@.len(),
{
    proof {
        lemma_spec_hex_len(data@);
    }
    let mut out = String::new();
    let n = data.len();
    let mut i: usize = 0;
    proof {
        assert(data@.skip(0) =~= data@);
    }
    while i < n
        invariant
            n == data@.len(),
            i <= n,
            spec_hex(data@) == out@ + spec_hex(data@.skip(i as int)),
        decreases n - i,
    {
        let b = data[i];
        push_char(&mut out, hex_digit_exec(b / 16));
        push_char(&mut out, hex_digit_exec(b % 16));
        proof {
            assert(data@.skip(i as int)[0] == data@[i as int]);
            assert(data@.skip(i as int).skip(1) =~= data@.skip(i as int + 1));
            assert(out@ + spec_hex(data@.skip(i as int + 1)) =~= spec_hex(data@));
        }
        i = i + 1;
    }
    proof {
        assert(spec_hex(data@.skip(n as int)) == Seq::<char>::empty());
        assert(out@ + Seq::<char>::empty() =~= out@);
    }
    out
}

/// The content hash used as the wallpaper's cache key: always the
/// sixty-four hex digits of the thirty-two digest bytes.
pub fn hash_bytes_hex(data: &Vec<u8>) -> (r: String)
    ensures
        r@ == spec_hex(sha256_of(data@)),
        r@.len() == 64,
{
    let digest = sha256(data);
    hex_encode(&digest)
}

/// The cache directory of one wallpaper, addressed by content.
pub fn wallpaper_cache_dir(cache_root: &str, key: &str) -> (r: String)
    ensures
        r@ == cache_root@ + "/"@ + key@,
{
    let mut out = cache_root.to_owned();
    out.append("/");
    out.append(key);
    out
}

/// Relies on rand::random_range over `0..n`: the drawn index lies
/// below `n`. Nothing more is promised of a random value.
#[verifier::external_body]
pub(crate) fn random_index(n: usize) -> (r: usize)
    requires
        n > 0,
    ensures
        r < n,
{
    rand::random_range(0..n)
}

/// Picks a random wallpaper among the candidates, never the current
/// one. With no candidates at all, or none besides the current one,
/// the matching error comes back.
pub fn pick_random_wallpaper(candidates: &Vec<String>, current: Option<&String>) -> (r: Result<
    String,
    VelaError,
>)
    ensures
        match r {
            Ok(p) => (exists|i: int|
                0 <= i < candidates@.len() && (#[trigger] candidates@[i])@ == p@) && (match current {
                Some(c) => p@ != c@,
                None => true,
            }),
            Err(e) => e.kind == ErrorKind::NotFound && (candidates@.len() == 0 || (current is Some
                && forall|i: int|
                0 <= i < candidates@.len() ==> (#[trigger] candidates@[i])@
                    == current.unwrap()@)),
        },
{
    if candidates.len() == 0 {
        return Err(
            VelaError::new(ErrorKind::NotFound, String::from_str("No valid wallpapers found")),
        );
    }
    let mut pool: Vec<String> = Vec::new();
    let n = candidates.len();
    let mut i: usize = 0;
    while i < n
        invariant
            n == candidates@.len(),
            i <= n,
            forall|j: int|
                0 <= j < pool@.len() ==> (match current {
                    Some(c) => (#[trigger] pool@[j])@ != c@,
                    None => true,
                }) && (exists|q: int|
                    0 <= q < candidates@.len() && (#[trigger] pool@[j])@ == candidates@[q]@),
            forall|q: int|
                0 <= q < i && (match current {
                    Some(c) => (#[trigger] candidates@[q])@ != c@,
                    None => true,
                }) ==> pool@.len() > 0,
        decreases n - i,
    {
        let keep = match current {
            Some(c) => !str_eq(candidates[i].as_str(), c.as_str()),
            None => true,
        };
        if keep {
            pool.push(candidates[i].clone());
            proof {
                assert forall|j: int| 0 <= j < pool@.len() implies (exists|q: int|
                    0 <= q < candidates@.len() && (#[trigger] pool@[j])@ == candidates@[q]@) by {
                    if j == pool@.len() - 1 {
                        assert(pool@[j]@ == candidates@[i as int]@);
                    }
                }
            }
        }
        i = i + 1;
    }
    if pool.len() == 0 {
        proof {
            assert(candidates@[0]@ == candidates@[0]@);
            if current is None {
                assert(pool@.len() > 0);
            }
        }
        return Err(
            VelaError::new(ErrorKind::NotFound, String::from_str("Only valid wallpaper is current")),
        );
    }
    let idx = random_index(pool.len());
    Ok(pool[idx].clone())
}

/// How setting a wallpaper changes the scheme state. For the dynamic
/// scheme the analyzer's mode and variant are taken (unless smart
/// detection is off) and the color map is kept verbatim; any other
/// scheme keeps its mode and variant and reloads its colors from the
/// catalog.
pub fn apply_wallpaper_state(
    st: &SchemeState,
    no_smart: bool,
    smart: Option<(Mode, Variant)>,
    catalog_colors: Option<ColorMap>,
) -> (r: SchemeState)
    requires
        st.name@ == "dynamic"@ && !no_smart ==> smart is Some,
        st.name@ != "dynamic"@ ==> catalog_colors is Some,
    ensures
        r.name@ == st.name@,
        r.flavor@ == st.flavor@,
        st.name@ == "dynamic"@ ==> r.colors.view() == st.colors.view(),
        st.name@ == "dynamic"@ && !no_smart ==> r.mode == smart.unwrap().0 && r.variant
            == smart.unwrap().1,
        st.name@ == "dynamic"@ && no_smart ==> r.mode == st.mode && r.variant == st.variant,
        st.name@ != "dynamic"@ ==> r.mode == st.mode && r.variant == st.variant && r.colors.view()
            == catalog_colors.unwrap().view(),
{
    let dynamic = str_eq(st.name.as_str(), "dynamic");
    let (mode, variant) = if dynamic && !no_smart {
        match smart {
            Some(sv) => sv,
            None => (st.mode, st.variant),
        }
    } else {
        (st.mode, st.variant)
    };
    let colors = if dynamic {
        st.colors.duplicate()
    } else {
        match catalog_colors {
            Some(c) => c,
            None => st.colors.duplicate(),
        }
    };
    SchemeState { name: st.name.clone(), flavor: st.flavor.clone(), mode, variant, colors }
}

/// The one-line record printed for a wallpaper file.
pub fn wallpaper_print_line(path: &str) -> (r: String)
    ensures
        r@ == "{\"file\":\""@ + path@
            + "\",\"flavor\":\"default\",\"mode\":\"dark\",\"name\":\"dynamic\",\"variant\":\"tonalspot\"}"@,
{
    let mut out = String::from_str("{\"file\":\"");
    out.append(path);
    out.append("\",\"flavor\":\"default\",\"mode\":\"dark\",\"name\":\"dynamic\",\"variant\":\"tonalspot\"}");
    out
}

} // verus!
