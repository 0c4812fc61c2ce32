use vela::catalog::{
    choose_mode, color_file_path, file_stem, parse_colors, scheme_flavors, scheme_modes,
    scheme_names,
};

#[test]
fn parse_colors_reads_token_pairs() {
    let cm = parse_colors("primary ff0000\n\nsecondary 00ff00 extra\nlonely\n  \t\nterm0 123456");
    assert_eq!(cm.len(), 3);
    assert_eq!(cm.get("primary"), Some("ff0000".to_string()));
    assert_eq!(cm.get("secondary"), Some("00ff00".to_string()));
    assert_eq!(cm.get("term0"), Some("123456".to_string()));
    assert_eq!(cm.get("lonely"), None);
}

#[test]
fn parse_colors_later_assignment_wins() {
    let cm = parse_colors("a 111111\nb 222222\na 333333\n");
    assert_eq!(cm.len(), 2);
    assert_eq!(cm.get("a"), Some("333333".to_string()));
}

#[test]
fn parse_colors_handles_crlf_and_indent() {
    let cm = parse_colors("  a  111111 \r\nb\t222222\r\n");
    assert_eq!(cm.get("a"), Some("111111".to_string()));
    assert_eq!(cm.get("b"), Some("222222".to_string()));
}

#[test]
fn parse_colors_splits_on_unicode_whitespace() {
    // form feed, no-break space and em space all separate fields,
    // as str::split_whitespace would
    let cm = parse_colors("a\u{000C}111111\nb\u{00A0}222222\nc\u{2003}333333\n");
    assert_eq!(cm.get("a"), Some("111111".to_string()));
    assert_eq!(cm.get("b"), Some("222222".to_string()));
    assert_eq!(cm.get("c"), Some("333333".to_string()));
}

#[test]
fn resolve_colors_is_deterministic() {
    let content = "primary ff0000\nsecondary 00ff00\n";
    let first = parse_colors(content);
    let second = parse_colors(content);
    assert_eq!(first, second);
}

#[test]
fn names_append_dynamic() {
    let subdirs = vec!["gruvbox".to_string(), "svelte".to_string()];
    let names = scheme_names(&subdirs);
    assert_eq!(names, vec!["gruvbox".to_string(), "svelte".to_string(), "dynamic".to_string()]);
}

#[test]
fn dynamic_flavors_and_modes_are_fixed() {
    // the synthetic scheme has no flavor directories at all
    let empty: Vec<String> = Vec::new();
    assert_eq!(scheme_flavors("dynamic", vec!["x".to_string()]), empty);
    assert_eq!(
        scheme_modes("dynamic", vec![]),
        vec!["light".to_string(), "dark".to_string()]
    );
    let fl = vec!["mocha".to_string()];
    assert_eq!(scheme_flavors("gruvbox", fl.clone()), fl);
    let md = vec!["dark".to_string()];
    assert_eq!(scheme_modes("gruvbox", md.clone()), md);
}

#[test]
fn stems_drop_the_extension() {
    assert_eq!(file_stem("dark.txt"), "dark");
    assert_eq!(file_stem("light"), "light");
    assert_eq!(file_stem(".hidden"), ".hidden");
    assert_eq!(file_stem("a.b.c"), "a.b");
}

#[test]
fn color_file_path_is_exact() {
    assert_eq!(
        color_file_path("/data/schemes", "gruvbox", "hard", "dark"),
        "/data/schemes/gruvbox/hard/dark.txt"
    );
}

#[test]
fn choose_mode_prefers_then_falls_back() {
    let modes = vec!["light".to_string(), "dark".to_string()];
    assert_eq!(choose_mode(&modes, "dark"), Some("dark".to_string()));
    assert_eq!(choose_mode(&modes, "dusk"), Some("light".to_string()));
    assert_eq!(choose_mode(&Vec::new(), "dark"), None);
}
