//! The scheme state record: name, flavor, mode, variant and color map.

use vstd::prelude::*;
use crate::colormap::ColorMap;
use crate::errors::ErrorKind;
use crate::errors::VelaError;
use crate::text::str_eq;
use vstd::string::StringExecFns;

verus! {

/// Light or dark rendering of a scheme.
#[derive(Clone, Copy, Debug, PartialEq, Eq, Structural)]
pub enum Mode {
    Dark,
    Light,
}

/// The palette-generation algorithm recorded for dynamic schemes.
#[derive(Clone, Copy, Debug, PartialEq, Eq, Structural)]
pub enum Variant {
    Tonalspot,
    Vibrant,
    Expressive,
    Fidelity,
    Fruitsalad,
    Monochrome,
    Neutral,
    Rainbow,
    Content,
}

pub open spec fn mode_name(m: Mode) -> Seq<char> {
    match m {
        Mode::Dark => "dark"@,
        Mode::Light => "light"@,
    }
}

pub open spec fn variant_name(v: Variant) -> Seq<char> {
    match v {
        Variant::Tonalspot => "tonalspot"@,
        Variant::Vibrant => "vibrant"@,
        Variant::Expressive => "expressive"@,
        Variant::Fidelity => "fidelity"@,
        Variant::Fruitsalad => "fruitsalad"@,
        Variant::Monochrome => "monochrome"@,
        Variant::Neutral => "neutral"@,
        Variant::Rainbow => "rainbow"@,
        Variant::Content => "content"@,
    }
}

impl Mode {
    pub fn as_str(&self) -> (r: &'static str)
        ensures
            r@ == mode_name(*self),
    {
        match self {
            Mode::Dark => "dark",
            Mode::Light => "light",
        }
    }
}

impl Variant {
    pub fn as_str(&self) -> (r: &'static str)
        ensures
            r@ == variant_name(*self),
    {
        match self {
            Variant::Tonalspot => "tonalspot",
            Variant::Vibrant => "vibrant",
            Variant::Expressive => "expressive",
            Variant::Fidelity => "fidelity",
            Variant::Fruitsalad => "fruitsalad",
            Variant::Monochrome => "monochrome",
            Variant::Neutral => "neutral",
            Variant::Rainbow => "rainbow",
            Variant::Content => "content",
        }
    }
}

/// The mode a name denotes, if any.
pub open spec fn spec_mode_of(s: Seq<char>) -> Option<Mode> {
    if s == "dark"@ {
        Some(Mode::Dark)
    } else if s == "light"@ {
        Some(Mode::Light)
    } else {
        None
    }
}

/// The variant a name denotes, if any.
pub open spec fn spec_variant_of(s: Seq<char>) -> Option<Variant> {
    if s == "tonalspot"@ {
        Some(Variant::Tonalspot)
    } else if s == "vibrant"@ {
        Some(Variant::Vibrant)
    } else if s == "expressive"@ {
        Some(Variant::Expressive)
    } else if s == "fidelity"@ {
        Some(Variant::Fidelity)
    } else if s == "fruitsalad"@ {
        Some(Variant::Fruitsalad)
    } else if s == "monochrome"@ {
        Some(Variant::Monochrome)
    } else if s == "neutral"@ {
        Some(Variant::Neutral)
    } else if s == "rainbow"@ {
        Some(Variant::Rainbow)
    } else if s == "content"@ {
        Some(Variant::Content)
    } else {
        None
    }
}

/// Recognizes a mode name.
pub fn mode_of_name(s: &str) -> (r: Option<Mode>)
    ensures
        r == spec_mode_of(s@),
{
    if str_eq(s, "dark") {
        Some(Mode::Dark)
    } else if str_eq(s, "light") {
        Some(Mode::Light)
    } else {
        None
    }
}

/// Recognizes a variant name.
pub fn variant_of_name(s: &str) -> (r: Option<Variant>)
    ensures
        r == spec_variant_of(s@),
{
    if str_eq(s, "tonalspot") {
        Some(Variant::Tonalspot)
    } else if str_eq(s, "vibrant") {
        Some(Variant::Vibrant)
    } else if str_eq(s, "expressive") {
        Some(Variant::Expressive)
    } else if str_eq(s, "fidelity") {
        Some(Variant::Fidelity)
    } else if str_eq(s, "fruitsalad") {
        Some(Variant::Fruitsalad)
    } else if str_eq(s, "monochrome") {
        Some(Variant::Monochrome)
    } else if str_eq(s, "neutral") {
        Some(Variant::Neutral)
    } else if str_eq(s, "rainbow") {
        Some(Variant::Rainbow)
    } else if str_eq(s, "content") {
        Some(Variant::Content)
    } else {
        None
    }
}

/// Validates a mode given at the input boundary.
pub fn parse_mode(s: &str) -> (r: Result<Mode, VelaError>)
    ensures
        match r {
            Ok(m) => spec_mode_of(s@) == Some(m),
            Err(e) => spec_mode_of(s@) == None::<Mode> && e.kind == ErrorKind::Validation,
        },
{
    match mode_of_name(s) {
        Some(m) => Ok(m),
        None => Err(VelaError::new(ErrorKind::Validation, String::from_str("mode must be dark or light"))),
    }
}

/// Validates a variant given at the input boundary.
pub fn parse_variant(s: &str) -> (r: Result<Variant, VelaError>)
    ensures
        match r {
            Ok(v) => spec_variant_of(s@) == Some(v),
            Err(e) => spec_variant_of(s@) == None::<Variant> && e.kind == ErrorKind::Validation,
        },
{
    match variant_of_name(s) {
        Some(v) => Ok(v),
        None => Err(VelaError::new(ErrorKind::Validation, String::from_str("unknown variant"))),
    }
}

/// The nine variant names, in their listing order.
pub fn variant_names() -> (r: Vec<String>)
    ensures
        r@.len() == 9,
        r@[0]@ == "tonalspot"@,
        r@[1]@ == "vibrant"@,
        r@[2]@ == "expressive"@,
        r@[3]@ == "fidelity"@,
        r@[4]@ == "fruitsalad"@,
        r@[5]@ == "monochrome"@,
        r@[6]@ == "neutral"@,
        r@[7]@ == "rainbow"@,
        r@[8]@ == "content"@,
{
    let mut v: Vec<String> = Vec::new();
    v.push(String::from_str("tonalspot"));
    v.push(String::from_str("vibrant"));
    v.push(String::from_str("expressive"));
    v.push(String::from_str("fidelity"));
    v.push(String::from_str("fruitsalad"));
    v.push(String::from_str("monochrome"));
    v.push(String::from_str("neutral"));
    v.push(String::from_str("rainbow"));
    v.push(String::from_str("content"));
    v
}

/// A string that can be embedded in a JSON string without escaping.
pub open spec fn json_safe(s: Seq<char>) -> bool {
    forall|i: int| 0 <= i < s.len() ==> s[i] != '"' && s[i] != '\\'
}

/// The canonical record of the active theme.
#[derive(Debug, Clone, PartialEq, Eq)]
pub struct SchemeState {
    pub name: String,
    pub flavor: String,
    pub mode: Mode,
    pub variant: Variant,
    pub colors: ColorMap,
}

impl SchemeState {
    /// Well-formed: every embedded string is JSON-safe and the color
    /// map has unique tokens.
    pub open spec fn wf(&self) -> bool {
        &&& json_safe(self.name@)
        &&& json_safe(self.flavor@)
        &&& self.colors.wf()
        &&& forall|i: int|
            0 <= i < self.colors.view().len() ==> json_safe(#[trigger] self.colors.view()[i].0)
                && json_safe(self.colors.view()[i].1)
    }
}

impl Default for SchemeState {
    /// The documented default: svelte / default / dark / tonalspot,
    /// with an empty color map.
    fn default() -> (r: SchemeState)
        ensures
            r.name@ == "svelte"@,
            r.flavor@ == "default"@,
            r.mode == Mode::Dark,
            r.variant == Variant::Tonalspot,
            r.colors.view() == Seq::<(Seq<char>, Seq<char>)>::empty(),
            r.wf(),
    {
        let r = SchemeState {
            name: String::from_str("svelte"),
            flavor: String::from_str("default"),
            mode: Mode::Dark,
            variant: Variant::Tonalspot,
            colors: ColorMap::new(),
        };
        proof {
            reveal_strlit("svelte");
            reveal_strlit("default");
            assert(json_safe(r.name@));
            assert(json_safe(r.flavor@));
        }
        r
    }
}

/// The human-readable summary of the current scheme.
pub fn scheme_summary(st: &SchemeState) -> (r: String)
    ensures
        r@ == "Current scheme:\n    Name: "@ + st.name@ + "\n    Flavor: "@ + st.flavor@
            + "\n    Mode: "@ + mode_name(st.mode) + "\n    Variant: "@ + variant_name(st.variant),
{
    let mut out = String::from_str("Current scheme:\n    Name: ");
    out.append(st.name.as_str());
    out.append("\n    Flavor: ");
    out.append(st.flavor.as_str());
    out.append("\n    Mode: ");
    out.append(st.mode.as_str());
    out.append("\n    Variant: ");
    out.append(st.variant.as_str());
    out
}

} // verus!
