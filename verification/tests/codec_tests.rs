use vela::codec::{load_state, parse_state, serialize_state};
use vela::colormap::ColorMap;
use vela::model::{Mode, SchemeState, Variant};

fn sample_colors() -> ColorMap {
    let mut cm = ColorMap::new();
    cm.insert("primary".to_string(), "c6a0f6".to_string());
    cm.insert("surface".to_string(), "1e1e2e".to_string());
    cm.insert("term0".to_string(), "000000".to_string());
    cm
}

#[test]
fn round_trip_all_mode_variant_combos() {
    let modes = [Mode::Dark, Mode::Light];
    let variants = [
        Variant::Tonalspot,
        Variant::Vibrant,
        Variant::Expressive,
        Variant::Fidelity,
        Variant::Fruitsalad,
        Variant::Monochrome,
        Variant::Neutral,
        Variant::Rainbow,
        Variant::Content,
    ];
    for mode in modes {
        for variant in variants {
            let st = SchemeState {
                name: "svelte".to_string(),
                flavor: "default".to_string(),
                mode,
                variant,
                colors: sample_colors(),
            };
            let text = serialize_state(&st);
            let back = parse_state(text.as_str()).expect("canonical text must parse");
            assert_eq!(back, st);
        }
    }
}

#[test]
fn round_trip_empty_colors() {
    let st = SchemeState {
        name: "gruvbox".to_string(),
        flavor: "hard".to_string(),
        mode: Mode::Light,
        variant: Variant::Rainbow,
        colors: ColorMap::new(),
    };
    let text = serialize_state(&st);
    assert_eq!(
        text,
        "{\"name\":\"gruvbox\",\"flavor\":\"hard\",\"mode\":\"light\",\"variant\":\"rainbow\",\"colors\":{}}"
    );
    let back = parse_state(text.as_str()).expect("canonical text must parse");
    assert_eq!(back, st);
}

#[test]
fn serialize_exact_text() {
    let mut cm = ColorMap::new();
    cm.insert("a".to_string(), "111111".to_string());
    cm.insert("b".to_string(), "222222".to_string());
    let st = SchemeState {
        name: "n".to_string(),
        flavor: "f".to_string(),
        mode: Mode::Dark,
        variant: Variant::Content,
        colors: cm,
    };
    assert_eq!(
        serialize_state(&st),
        "{\"name\":\"n\",\"flavor\":\"f\",\"mode\":\"dark\",\"variant\":\"content\",\"colors\":{\"a\":\"111111\",\"b\":\"222222\"}}"
    );
}

#[test]
fn default_fallback_on_missing_file() {
    let (st, rewrite) = load_state(None);
    assert!(rewrite);
    assert_eq!(st.name, "svelte");
    assert_eq!(st.flavor, "default");
    assert_eq!(st.mode, Mode::Dark);
    assert_eq!(st.variant, Variant::Tonalspot);
    assert_eq!(st.colors.len(), 0);
    // the rewrite leaves a readable state file behind
    let text = serialize_state(&st);
    let back = parse_state(text.as_str()).expect("default must reparse");
    assert_eq!(back, st);
}

#[test]
fn default_fallback_on_corrupt_file() {
    let corrupt = "{\"name\": oops".to_string();
    let (st, rewrite) = load_state(Some(&corrupt));
    assert!(rewrite);
    assert_eq!(st.name, "svelte");
    assert_eq!(st.mode, Mode::Dark);
}

#[test]
fn load_keeps_stored_state() {
    let st = SchemeState {
        name: "svelte".to_string(),
        flavor: "default".to_string(),
        mode: Mode::Light,
        variant: Variant::Neutral,
        colors: sample_colors(),
    };
    let text = serialize_state(&st);
    let (loaded, rewrite) = load_state(Some(&text));
    assert!(!rewrite);
    assert_eq!(loaded, st);
}

#[test]
fn parse_rejects_other_shapes() {
    assert!(parse_state("").is_none());
    assert!(parse_state("{}").is_none());
    assert!(parse_state("{\"name\":\"x\"}").is_none());
    // an unknown mode is corrupt
    assert!(parse_state(
        "{\"name\":\"n\",\"flavor\":\"f\",\"mode\":\"dusk\",\"variant\":\"content\",\"colors\":{}}"
    )
    .is_none());
    // trailing bytes are corrupt
    assert!(parse_state(
        "{\"name\":\"n\",\"flavor\":\"f\",\"mode\":\"dark\",\"variant\":\"content\",\"colors\":{}} "
    )
    .is_none());
    // duplicate tokens are corrupt
    assert!(parse_state(
        "{\"name\":\"n\",\"flavor\":\"f\",\"mode\":\"dark\",\"variant\":\"content\",\"colors\":{\"a\":\"1\",\"a\":\"2\"}}"
    )
    .is_none());
}
