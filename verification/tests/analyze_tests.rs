use vela::analyze::{analyze_image, mode_for_luminance, variant_for_image};
use vela::colormap::ColorMap;
use vela::model::{Mode, SchemeState, Variant};
use vela::wallpaper::apply_wallpaper_state;

fn flat(pixels: &[(u8, u8, u8)]) -> Vec<u8> {
    let mut data = Vec::new();
    for (r, g, b) in pixels {
        data.push(*r);
        data.push(*g);
        data.push(*b);
    }
    data
}

#[test]
fn luminance_boundaries() {
    assert_eq!(mode_for_luminance(255, 255, 255), Mode::Light);
    assert_eq!(mode_for_luminance(0, 0, 0), Mode::Dark);
    assert_eq!(mode_for_luminance(128, 128, 128), Mode::Dark);
    // just above the threshold: Y = 156
    assert_eq!(mode_for_luminance(156, 156, 156), Mode::Light);
    assert_eq!(mode_for_luminance(155, 155, 155), Mode::Dark);
}

#[test]
fn uniform_gray_is_neutral() {
    let data = flat(&[(128, 128, 128), (128, 128, 128), (128, 128, 128), (128, 128, 128)]);
    assert_eq!(variant_for_image(2, 2, &data), Variant::Neutral);
}

#[test]
fn white_image_is_light() {
    let data = flat(&[(255, 255, 255), (255, 255, 255), (255, 255, 255), (255, 255, 255)]);
    let (mode, variant) = analyze_image(2, 2, &data);
    assert_eq!(mode, Mode::Light);
    assert_eq!(variant, Variant::Neutral);
}

#[test]
fn black_image_is_dark() {
    let data = flat(&[(0, 0, 0), (0, 0, 0), (0, 0, 0), (0, 0, 0)]);
    let (mode, variant) = analyze_image(2, 2, &data);
    assert_eq!(mode, Mode::Dark);
    assert_eq!(variant, Variant::Neutral);
}

#[test]
fn saturated_checkerboard_is_tonalspot() {
    let data = flat(&[(128, 128, 128), (255, 0, 0), (0, 0, 255), (128, 128, 128)]);
    assert_eq!(variant_for_image(2, 2, &data), Variant::Tonalspot);
}

#[test]
fn end_to_end_dynamic_wallpaper() {
    // a synthetic gray and saturated red-blue checkerboard
    let data = flat(&[(128, 128, 128), (255, 0, 0), (0, 0, 255), (128, 128, 128)]);
    let (mode, variant) = analyze_image(2, 2, &data);
    assert_eq!(mode, Mode::Dark);
    assert_eq!(variant, Variant::Tonalspot);

    let mut colors = ColorMap::new();
    colors.insert("primary".to_string(), "deadbe".to_string());
    colors.insert("surface".to_string(), "101010".to_string());
    let st = SchemeState {
        name: "dynamic".to_string(),
        flavor: "default".to_string(),
        mode: Mode::Light,
        variant: Variant::Vibrant,
        colors: colors.duplicate(),
    };
    let updated = apply_wallpaper_state(&st, false, Some((mode, variant)), None);
    assert_eq!(updated.name, "dynamic");
    assert_eq!(updated.flavor, "default");
    assert_eq!(updated.mode, Mode::Dark);
    assert_eq!(updated.variant, Variant::Tonalspot);
    // the dynamic color map stays exactly as stored
    assert_eq!(updated.colors, colors);
}

#[test]
fn no_smart_keeps_mode_and_variant() {
    let st = SchemeState {
        name: "dynamic".to_string(),
        flavor: "default".to_string(),
        mode: Mode::Light,
        variant: Variant::Vibrant,
        colors: ColorMap::new(),
    };
    let updated = apply_wallpaper_state(&st, true, None, None);
    assert_eq!(updated.mode, Mode::Light);
    assert_eq!(updated.variant, Variant::Vibrant);
}

#[test]
fn static_scheme_reloads_colors() {
    let mut fresh = ColorMap::new();
    fresh.insert("primary".to_string(), "aabbcc".to_string());
    let st = SchemeState {
        name: "gruvbox".to_string(),
        flavor: "default".to_string(),
        mode: Mode::Dark,
        variant: Variant::Tonalspot,
        colors: ColorMap::new(),
    };
    let updated = apply_wallpaper_state(&st, true, None, Some(fresh.duplicate()));
    assert_eq!(updated.colors, fresh);
    assert_eq!(updated.mode, Mode::Dark);
}
