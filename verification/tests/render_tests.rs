use vela::colormap::ColorMap;
use vela::model::Mode;
use vela::paths::{build_paths, xdg_paths};
use vela::propagate::{run_propagation, Outcome, PostAction, ThemeToggles};
use vela::template::{gen_conf, render_template, replace_all};
use vela::terminal::{c2s, gen_sequences, is_pty_name};

fn demo_colors() -> ColorMap {
    let mut cm = ColorMap::new();
    cm.insert("primary".to_string(), "c6a0f6".to_string());
    cm.insert("onSurface".to_string(), "cdd6f4".to_string());
    cm.insert("surface".to_string(), "1e1e2e".to_string());
    cm
}

#[test]
fn render_substitutes_tokens() {
    let cm = demo_colors();
    let out = render_template("color={{ $primary }};", &cm, false);
    assert_eq!(out, "color=c6a0f6;");
    let hashed = render_template("color={{ $primary }};", &cm, true);
    assert_eq!(hashed, "color=#c6a0f6;");
}

#[test]
fn render_twice_is_identical() {
    let cm = demo_colors();
    let t = "a {{ $primary }} b {{ $missing }} c {{ $surface }}";
    let first = render_template(t, &cm, true);
    let second = render_template(t, &cm, true);
    assert_eq!(first, second);
}

#[test]
fn absent_token_renders_fallback() {
    let cm = demo_colors();
    let plain = render_template("{{ $nothere }}", &cm, false);
    assert_eq!(plain, "000000");
    let hashed = render_template("{{ $nothere }}", &cm, true);
    assert_eq!(hashed, "#000000");
    let inline = render_template("x{{ $nothere }}y", &cm, false);
    assert_eq!(inline, "x000000y");
    assert!(!inline.contains("{{"));
}

#[test]
fn malformed_placeholders_pass_through() {
    let cm = demo_colors();
    assert_eq!(render_template("{{ $ }}", &cm, false), "{{ $ }}");
    assert_eq!(render_template("{{ primary }}", &cm, false), "{{ primary }}");
    assert_eq!(render_template("{{ $primary", &cm, false), "{{ $primary");
}

#[test]
fn replace_all_replaces_every_occurrence() {
    assert_eq!(replace_all("a-${mode}-b-${mode}", "${mode}", "dark"), "a-dark-b-dark");
    assert_eq!(replace_all("none here", "${mode}", "dark"), "none here");
}

#[test]
fn gen_conf_lists_every_token() {
    let cm = demo_colors();
    assert_eq!(gen_conf(&cm), "$primary = c6a0f6\n$onSurface = cdd6f4\n$surface = 1e1e2e\n");
}

#[test]
fn c2s_exact_sequences() {
    let mut one = Vec::new();
    one.push(10u8);
    assert_eq!(c2s("cdd6f4", &one), "\x1b]10;rgb:cd/d6/f4\x1b\\");
    let mut two = Vec::new();
    two.push(4u8);
    two.push(11u8);
    assert_eq!(c2s("1e1e2e", &two), "\x1b]4;11;rgb:1e/1e/2e\x1b\\");
}

#[test]
fn sequences_start_with_foreground_and_background() {
    let cm = demo_colors();
    let s = gen_sequences(&cm);
    assert!(s.starts_with("\x1b]10;rgb:cd/d6/f4\x1b\\\x1b]11;rgb:1e/1e/2e\x1b\\"));
    // missing tokens fall back to black
    assert!(s.contains("\x1b]4;0;rgb:00/00/00\x1b\\"));
    // the three extended indices close the set
    assert!(s.ends_with("\x1b]4;18;rgb:00/00/00\x1b\\"));
}

#[test]
fn pty_names_are_numeric() {
    assert!(is_pty_name("0"));
    assert!(is_pty_name("12"));
    assert!(!is_pty_name("ptmx"));
    assert!(!is_pty_name("1a"));
}

#[test]
fn partial_consumer_failure_is_isolated() {
    let cm = demo_colors();
    let xdg = xdg_paths(
        "/home/u",
        None,
        None,
        None,
        None,
        None,
        None,
    );
    let paths = build_paths(&xdg, None, None, None, None);
    let toggles = ThemeToggles::default();
    let mut templates: Vec<Option<String>> = Vec::new();
    templates.push(None);
    templates.push(None);
    for _ in 2..12 {
        templates.push(Some("v={{ $primary }}".to_string()));
    }
    // one consumer loses its template
    templates[3] = None;
    let outcomes = run_propagation(&cm, Mode::Dark, &toggles, &paths, "/home/u/.config", &templates);
    assert_eq!(outcomes.len(), 12);
    match &outcomes[3] {
        Outcome::Failed { id, .. } => assert_eq!(id, "btop"),
        _ => panic!("the consumer with the missing template must fail"),
    }
    // its neighbors still render
    match &outcomes[2] {
        Outcome::Rendered { id, content, dests, .. } => {
            assert_eq!(id, "fuzzel");
            assert_eq!(content, "v=#c6a0f6");
            assert_eq!(dests.len(), 1);
            assert_eq!(dests[0], "/home/u/.config/vela/fuzzel/fuzzel.ini");
        },
        _ => panic!("a consumer with a template must render"),
    }
    match &outcomes[4] {
        Outcome::Rendered { id, .. } => assert_eq!(id, "nvtop"),
        _ => panic!("a consumer with a template must render"),
    }
    // the generated consumers never need templates
    match &outcomes[0] {
        Outcome::Rendered { id, post, .. } => {
            assert_eq!(id, "term");
            assert!(matches!(post, PostAction::Broadcast));
        },
        _ => panic!("the terminal consumer is generated"),
    }
}

#[test]
fn disabled_consumer_is_skipped() {
    let cm = demo_colors();
    let xdg = xdg_paths("/home/u", None, None, None, None, None, None);
    let paths = build_paths(&xdg, None, None, None, None);
    let mut toggles = ThemeToggles::default();
    toggles.term = false;
    let mut templates: Vec<Option<String>> = Vec::new();
    for _ in 0..12 {
        templates.push(Some("x".to_string()));
    }
    let outcomes = run_propagation(&cm, Mode::Dark, &toggles, &paths, "/home/u/.config", &templates);
    assert!(matches!(&outcomes[0], Outcome::Skipped { .. }));
}

#[test]
fn warp_template_gets_mode_word() {
    let cm = demo_colors();
    let xdg = xdg_paths("/home/u", None, None, None, None, None, None);
    let paths = build_paths(&xdg, None, None, None, None);
    let toggles = ThemeToggles::default();
    let mut templates: Vec<Option<String>> = Vec::new();
    for _ in 0..12 {
        templates.push(Some("m={{ $warp_mode }} p={{ $primary }}".to_string()));
    }
    let outcomes = run_propagation(&cm, Mode::Dark, &toggles, &paths, "/home/u/.config", &templates);
    match &outcomes[11] {
        Outcome::Rendered { content, .. } => assert_eq!(content, "m=darker p=#c6a0f6"),
        _ => panic!("warp must render"),
    }
    let light = run_propagation(&cm, Mode::Light, &toggles, &paths, "/home/u/.config", &templates);
    match &light[11] {
        Outcome::Rendered { content, .. } => assert_eq!(content, "m=lighter p=#c6a0f6"),
        _ => panic!("warp must render"),
    }
}

#[test]
fn vscode_template_gets_mode_replaced() {
    let cm = demo_colors();
    let xdg = xdg_paths("/home/u", None, None, None, None, None, None);
    let paths = build_paths(&xdg, None, None, None, None);
    let toggles = ThemeToggles::default();
    let mut templates: Vec<Option<String>> = Vec::new();
    for _ in 0..12 {
        templates.push(Some("\"type\":\"${mode}\",\"p\":\"{{ $primary }}\"".to_string()));
    }
    let outcomes = run_propagation(&cm, Mode::Dark, &toggles, &paths, "/home/u/.config", &templates);
    match &outcomes[7] {
        Outcome::Rendered { content, dests, .. } => {
            assert_eq!(content, "\"type\":\"dark\",\"p\":\"#c6a0f6\"");
            assert_eq!(dests[0], "/home/u/.config/VSCodium/User/themes/vela-color-theme.json");
        },
        _ => panic!("vscode must render"),
    }
}
