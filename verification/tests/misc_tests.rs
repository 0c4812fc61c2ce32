use vela::colormap::ColorMap;
use vela::codec::serialize_colors;
use vela::langs::{
    accent_for_language, active_language, count_languages, ext_to_lang, palette_override_json,
};
use vela::model::{parse_mode, parse_variant, scheme_summary, variant_names, Mode, SchemeState, Variant};
use vela::errors::ErrorKind;
use vela::paths::{build_paths, xdg_paths};
use vela::propagate::{apply_hypr, qt_template_name};
use vela::schemeops::{
    apply_set_args, detect_json, pick_random, render_scheme_entry, retain_non_dynamic,
    sort_strings, wrap_object,
};
use vela::text::{ascii_lower, dec_u8, str_eq, str_lex_lt};
use vela::wallpaper::{
    filter_wallpapers, hash_bytes_hex, hex_encode, is_valid_image, path_extension,
    pick_random_wallpaper, thumb_dims, wallpaper_cache_dir, wallpaper_print_line,
};

#[test]
fn extensions_map_to_languages() {
    assert_eq!(ext_to_lang("rs"), Some("rust"));
    assert_eq!(ext_to_lang("RS"), Some("rust"));
    assert_eq!(ext_to_lang("tsx"), Some("typescript"));
    assert_eq!(ext_to_lang("unknown"), None);
    assert_eq!(ext_to_lang("hpp"), Some("cpp"));
}

#[test]
fn accents_for_known_languages() {
    assert_eq!(accent_for_language("rust"), Some(("d28445", "b294bb", "81a2be")));
    assert_eq!(accent_for_language("klingon"), None);
}

#[test]
fn palette_override_is_exact() {
    let out = palette_override_json("svelte").unwrap();
    assert_eq!(
        out,
        "{\"activeLanguage\":\"svelte\",\"colors\":{\"primary\":\"ff3e00\",\"secondary\":\"312e81\",\"surfaceTint\":\"ff3e00\",\"tertiary\":\"1f2937\"}}"
    );
    assert!(palette_override_json("klingon").is_none());
}

#[test]
fn counting_and_active_language() {
    let detected = vec![
        Some("rust".to_string()),
        Some("python".to_string()),
        Some("rust".to_string()),
        None,
        Some("python".to_string()),
    ];
    let counts = count_languages(&detected);
    assert_eq!(counts, vec![("rust".to_string(), 2), ("python".to_string(), 2)]);
    // equal counts: the lexicographically greatest name wins
    assert_eq!(active_language(&counts), Some("rust".to_string()));
    assert_eq!(active_language(&Vec::new()), None);
}

#[test]
fn counts_render_sorted_by_name() {
    let counts = vec![
        ("rust".to_string(), 2u64),
        ("astro".to_string(), 1u64),
        ("python".to_string(), 2u64),
    ];
    let sorted = vela::langs::sort_counts(&counts);
    assert_eq!(
        sorted,
        vec![
            ("astro".to_string(), 1u64),
            ("python".to_string(), 2u64),
            ("rust".to_string(), 2u64),
        ]
    );
    assert_eq!(
        detect_json("rust", &sorted),
        "{\"activeLanguage\":\"rust\",\"counts\":{\"astro\":1,\"python\":2,\"rust\":2}}"
    );
}

#[test]
fn detect_json_is_exact() {
    let counts = vec![("python".to_string(), 2u64), ("rust".to_string(), 13u64)];
    assert_eq!(
        detect_json("rust", &counts),
        "{\"activeLanguage\":\"rust\",\"counts\":{\"python\":2,\"rust\":13}}"
    );
    let empty: Vec<(String, u64)> = Vec::new();
    assert_eq!(detect_json("unknown", &empty), "{\"activeLanguage\":\"unknown\",\"counts\":{}}");
}

#[test]
fn paths_are_built_from_xdg_roots() {
    let xdg = xdg_paths("/home/u", None, None, Some("/tmp/state".to_string()), None, None, None);
    assert_eq!(xdg.config, "/home/u/.config");
    assert_eq!(xdg.state, "/tmp/state");
    let p = build_paths(&xdg, None, None, None, None);
    assert_eq!(p.scheme_path, "/tmp/state/vela/scheme.json");
    assert_eq!(p.user_config_path, "/home/u/.config/vela/cli.json");
    assert_eq!(p.templates_dir, "/home/u/.config/vela/templates");
    assert_eq!(p.wallpapers_dir, "/home/u/Pictures/Wallpapers");
    let ws = "/src/tree".to_string();
    let p2 = build_paths(&xdg, Some(&ws), None, None, None);
    assert_eq!(p2.scheme_data_dir, "/src/tree/cli/src/vela/data/schemes");
}

#[test]
fn image_paths_are_recognized() {
    assert!(is_valid_image("/a/b/photo.png"));
    assert!(is_valid_image("wall.jpeg"));
    assert!(!is_valid_image("/a/b/notes.txt"));
    assert!(!is_valid_image("/a/b/archive"));
    assert!(!is_valid_image("/a/.hidden"));
    assert_eq!(path_extension("/a/b.c/file.tar.gz"), Some("gz".to_string()));
    assert_eq!(path_extension("/a/b.c/file"), None);
}

#[test]
fn wallpaper_filtering_keeps_order() {
    let paths = vec![
        "/w/a.png".to_string(),
        "/w/readme.md".to_string(),
        "/w/b.webp".to_string(),
    ];
    assert_eq!(filter_wallpapers(&paths), vec!["/w/a.png".to_string(), "/w/b.webp".to_string()]);
}

#[test]
fn random_pick_avoids_current() {
    let candidates = vec!["/w/a.png".to_string(), "/w/b.png".to_string()];
    let current = "/w/a.png".to_string();
    for _ in 0..8 {
        let p = pick_random_wallpaper(&candidates, Some(&current)).unwrap();
        assert_eq!(p, "/w/b.png");
    }
    let only = vec!["/w/a.png".to_string()];
    let err = pick_random_wallpaper(&only, Some(&current)).unwrap_err();
    assert_eq!(err.kind(), ErrorKind::NotFound);
    let none: Vec<String> = Vec::new();
    let err2 = pick_random_wallpaper(&none, None).unwrap_err();
    assert_eq!(err2.kind(), ErrorKind::NotFound);
}

#[test]
fn thumbnails_shrink_to_fit() {
    assert_eq!(thumb_dims(3840, 2160), (120, 67));
    assert_eq!(thumb_dims(100, 100), (100, 100));
    assert_eq!(thumb_dims(1, 4096), (1, 128));
}

#[test]
fn hashing_matches_the_digest() {
    // the well-known digest of the empty byte string
    assert_eq!(
        hash_bytes_hex(&Vec::new()),
        "e3b0c44298fc1c149afbf4c8996fb92427ae41e4649b934ca495991b7852b855"
    );
    let data = vec![0u8, 255u8, 16u8];
    assert_eq!(hex_encode(&data), "00ff10");
    assert_ne!(hash_bytes_hex(&data), hex_encode(&data));
    // the cache key is always sixty-four hex digits
    assert_eq!(hash_bytes_hex(&data).len(), 64);
    assert_eq!(wallpaper_cache_dir("/cache/wallpapers", "abcd"), "/cache/wallpapers/abcd");
}

#[test]
fn wallpaper_print_line_is_exact() {
    assert_eq!(
        wallpaper_print_line("/tmp/img.png"),
        "{\"file\":\"/tmp/img.png\",\"flavor\":\"default\",\"mode\":\"dark\",\"name\":\"dynamic\",\"variant\":\"tonalspot\"}"
    );
}

#[test]
fn mode_and_variant_validation() {
    assert_eq!(parse_mode("dark").unwrap(), Mode::Dark);
    assert_eq!(parse_mode("light").unwrap(), Mode::Light);
    assert_eq!(parse_mode("dusk").unwrap_err().kind(), ErrorKind::Validation);
    assert_eq!(parse_variant("vibrant").unwrap(), Variant::Vibrant);
    assert_eq!(parse_variant("plaid").unwrap_err().kind(), ErrorKind::Validation);
    assert_eq!(variant_names().len(), 9);
}

#[test]
fn scheme_updates_apply_only_supplied_fields() {
    let st = SchemeState {
        name: "svelte".to_string(),
        flavor: "default".to_string(),
        mode: Mode::Dark,
        variant: Variant::Tonalspot,
        colors: ColorMap::new(),
    };
    let updated = apply_set_args(&st, Some("gruvbox".to_string()), None, Some(Mode::Light), None);
    assert_eq!(updated.name, "gruvbox");
    assert_eq!(updated.flavor, "default");
    assert_eq!(updated.mode, Mode::Light);
    assert_eq!(updated.variant, Variant::Tonalspot);
    let summary = scheme_summary(&updated);
    assert_eq!(
        summary,
        "Current scheme:\n    Name: gruvbox\n    Flavor: default\n    Mode: light\n    Variant: tonalspot"
    );
}

#[test]
fn sorted_lists_lose_their_repeats() {
    let names = vec![
        "hard".to_string(),
        "mocha".to_string(),
        "hard".to_string(),
        "latte".to_string(),
        "mocha".to_string(),
    ];
    let unique = vela::schemeops::dedup_sorted(&sort_strings(&names));
    assert_eq!(unique, vec!["hard".to_string(), "latte".to_string(), "mocha".to_string()]);
    let empty: Vec<String> = Vec::new();
    assert_eq!(vela::schemeops::dedup_sorted(&empty), empty);
}

#[test]
fn listing_helpers_build_sorted_json() {
    let names = vec!["svelte".to_string(), "dynamic".to_string(), "aqua".to_string()];
    let pool = retain_non_dynamic(&names);
    assert_eq!(pool, vec!["svelte".to_string(), "aqua".to_string()]);
    let sorted = sort_strings(&pool);
    assert_eq!(sorted, vec!["aqua".to_string(), "svelte".to_string()]);
    assert!(pick_random(&pool).is_some());
    assert!(pick_random(&Vec::new()).is_none());

    let mut cm = ColorMap::new();
    cm.insert("primary".to_string(), "aabbcc".to_string());
    assert_eq!(serialize_colors(&cm), "{\"primary\":\"aabbcc\"}");
    let flavors = vec![("hard".to_string(), cm)];
    let entry = render_scheme_entry("gruvbox", &flavors);
    assert_eq!(entry, "\"gruvbox\":{\"hard\":{\"primary\":\"aabbcc\"}}");
    let items = vec![entry];
    assert_eq!(wrap_object(&items), "{\"gruvbox\":{\"hard\":{\"primary\":\"aabbcc\"}}}");
}

#[test]
fn dconf_value_carries_the_mode() {
    assert_eq!(vela::propagate::dconf_color_scheme_value(Mode::Dark), "'prefer-dark'");
    assert_eq!(vela::propagate::dconf_color_scheme_value(Mode::Light), "'prefer-light'");
}

#[test]
fn hypr_variable_file_is_generated() {
    let mut cm = ColorMap::new();
    cm.insert("primary".to_string(), "c6a0f6".to_string());
    let (dest, content) = apply_hypr("/home/u/.config/vela", &cm);
    assert_eq!(dest, "/home/u/.config/vela/hypr/scheme/current.conf");
    assert_eq!(content, "$primary = c6a0f6\n");
    assert_eq!(qt_template_name(Mode::Dark), "qtdark.colors");
    assert_eq!(qt_template_name(Mode::Light), "qtlight.colors");
}

#[test]
fn text_helpers_behave() {
    assert!(str_eq("abc", "abc"));
    assert!(!str_eq("abc", "abd"));
    assert!(str_lex_lt("abc", "abd"));
    assert!(str_lex_lt("ab", "abc"));
    assert!(!str_lex_lt("b", "aaa"));
    assert_eq!(ascii_lower("MiXeD-09"), "mixed-09");
    assert_eq!(dec_u8(0), "0");
    assert_eq!(dec_u8(18), "18");
    assert_eq!(dec_u8(255), "255");
}
