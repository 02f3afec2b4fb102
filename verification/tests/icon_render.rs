use cpu_monitor::icon::{
    encode_icon_png, icon_layout, icon_top, label_color, temp_label, temp_label_color,
    text_width_from_advances, RenderError, RenderedIcon, COLOR_DISCONNECTED_TEXT, COLOR_HIGH,
    COLOR_TEXT, COLOR_WARN1,
};
use cpu_monitor::pixels::{
    blend_pixel, blit_glyph, premultiply_rgba, rgba_premul_to_argb_straight,
    unpremultiply_to_rgba, GlyphBitmap,
};

#[test]
fn temp_label_color_thresholds() {
    assert_eq!(temp_label_color(0), COLOR_TEXT);
    assert_eq!(temp_label_color(59), COLOR_TEXT);
    assert_eq!(temp_label_color(60), COLOR_WARN1);
    assert_eq!(temp_label_color(79), COLOR_WARN1);
    assert_eq!(temp_label_color(80), COLOR_HIGH);
    assert_eq!(temp_label_color(100), COLOR_HIGH);
}

#[test]
fn opaque_pixels_passthrough_color() {
    let rgba = vec![0x11, 0x22, 0x33, 0xff];
    let argb = rgba_premul_to_argb_straight(&rgba);
    assert_eq!(argb, vec![0xff, 0x11, 0x22, 0x33]);
}

#[test]
fn fully_transparent_pixels_become_zero() {
    let rgba = vec![0x33, 0x33, 0x33, 0x00];
    let argb = rgba_premul_to_argb_straight(&rgba);
    assert_eq!(argb, vec![0x00, 0x00, 0x00, 0x00]);
}

#[test]
fn half_alpha_pixel_is_unpremultiplied() {
    let rgba = vec![0x00, 0x80, 0x00, 0x80];
    let argb = rgba_premul_to_argb_straight(&rgba);
    assert_eq!(argb[0], 0x80);
    assert!(argb[2] >= 0xfe, "green should round up to ~255");
}

#[test]
fn unpremultiply_keeps_alpha_last() {
    let rgba = vec![0x00, 0x80, 0x00, 0x80, 0x11, 0x22, 0x33, 0xff, 7, 7, 7, 0];
    assert_eq!(
        unpremultiply_to_rgba(&rgba),
        vec![0x00, 0xff, 0x00, 0x80, 0x11, 0x22, 0x33, 0xff, 0, 0, 0, 0]
    );
}

#[test]
fn unpremultiply_caps_at_255() {
    // A colour channel above its alpha cannot come from premultiplication.
    let rgba = vec![0xff, 0x10, 0x00, 0x10];
    assert_eq!(unpremultiply_to_rgba(&rgba), vec![0xff, 0xff, 0x00, 0x10]);
}

#[test]
fn partial_pixel_bytes_become_zero() {
    let rgba = vec![0x11, 0x22, 0x33, 0xff, 9, 9];
    assert_eq!(rgba_premul_to_argb_straight(&rgba), vec![0xff, 0x11, 0x22, 0x33, 0, 0]);
    assert_eq!(unpremultiply_to_rgba(&rgba), vec![0x11, 0x22, 0x33, 0xff, 0, 0]);
}

#[test]
fn premultiply_scales_by_alpha() {
    let rgba = vec![200, 100, 255, 128, 10, 20, 30, 255];
    assert_eq!(premultiply_rgba(&rgba), vec![100, 50, 128, 128, 10, 20, 30, 255]);
}

#[test]
fn opaque_round_trip_through_premultiply() {
    let rgba = vec![1, 2, 3, 255, 250, 128, 0, 255];
    assert_eq!(unpremultiply_to_rgba(&premultiply_rgba(&rgba)), rgba);
}

#[test]
fn argb_is_rgba_with_alpha_first() {
    let rgba = vec![0x20, 0x40, 0x10, 0x80, 0x05, 0x06, 0x07, 0x09];
    let straight = unpremultiply_to_rgba(&rgba);
    let argb = rgba_premul_to_argb_straight(&rgba);
    for i in 0..2 {
        assert_eq!(argb[4 * i], straight[4 * i + 3]);
        assert_eq!(argb[4 * i + 1], straight[4 * i]);
        assert_eq!(argb[4 * i + 2], straight[4 * i + 1]);
        assert_eq!(argb[4 * i + 3], straight[4 * i + 2]);
    }
}

#[test]
fn blend_pixel_mixes_and_accumulates_alpha() {
    let mut data = vec![0u8; 4 * 2 * 2];
    data[4 * 3] = 100;
    data[4 * 3 + 3] = 200;
    blend_pixel(&mut data, 2, 2, 1, 1, [255, 0, 50, 255], 102);
    assert_eq!(&data[12..16], &[((255 * 102 + 100 * 153) / 255) as u8, 0, (50 * 102 / 255) as u8, 255]);
    let before = data.clone();
    blend_pixel(&mut data, 2, 2, 2, 0, [255, 255, 255, 255], 255);
    blend_pixel(&mut data, 2, 2, 0, 0, [255, 255, 255, 255], 0);
    assert_eq!(data, before);
}

#[test]
fn blit_glyph_draws_covered_cells() {
    let mut data = vec![0u8; 4 * 3 * 2];
    let glyph = GlyphBitmap { width: 2, rows: 1, pitch: 2, buffer: vec![0, 9] };
    let alpha: Vec<u8> = (0..=255u32).map(|c| c as u8).collect();
    blit_glyph(&mut data, 3, 2, &glyph, 1, 1, [255, 255, 255, 255], &alpha);
    let mut expected = vec![0u8; 24];
    let p = 4 * (1 * 3 + 2);
    expected[p] = (255 * 9 / 255) as u8;
    expected[p + 1] = (255 * 9 / 255) as u8;
    expected[p + 2] = (255 * 9 / 255) as u8;
    expected[p + 3] = 9;
    assert_eq!(data, expected);
}

#[test]
fn blit_glyph_drops_cells_off_canvas() {
    let mut data = vec![0u8; 4 * 2 * 2];
    let glyph = GlyphBitmap { width: 2, rows: 2, pitch: 2, buffer: vec![255, 255, 255, 255] };
    let alpha: Vec<u8> = (0..=255u32).map(|c| c as u8).collect();
    blit_glyph(&mut data, 2, 2, &glyph, -1, 1, [10, 20, 30, 255], &alpha);
    assert_eq!(&data[0..8], &[0u8; 8]);
    assert_eq!(&data[8..12], &[10, 20, 30, 255]);
    assert_eq!(&data[12..16], &[0u8; 4]);
}

#[test]
fn temp_label_pads_to_two_places() {
    assert_eq!(temp_label(Some(5)), " 5\u{ba}C");
    assert_eq!(temp_label(Some(45)), "45\u{ba}C");
    assert_eq!(temp_label(Some(105)), "105\u{ba}C");
    assert_eq!(temp_label(None), " --\u{ba}C");
}

#[test]
fn label_color_when_disconnected_or_unknown() {
    assert_eq!(label_color(false, Some(90)), COLOR_DISCONNECTED_TEXT);
    assert_eq!(label_color(true, None), COLOR_TEXT);
    assert_eq!(label_color(true, Some(85)), COLOR_HIGH);
}

#[test]
fn layout_of_a_22_pixel_icon() {
    let l = icon_layout(22, 20, 30);
    assert_eq!(l.donut_size, 18);
    assert_eq!(l.text_x, 22);
    assert_eq!(l.donut_x, 54);
    assert_eq!(l.width, 72);
    let small = icon_layout(10, 0, 0);
    assert_eq!(small.donut_size, 8);
    assert_eq!(small.width, 12);
    let tall = icon_layout(40, 0, 0);
    assert_eq!(tall.width, 40);
    assert_eq!(icon_top(22, 19), 1);
    assert_eq!(icon_top(19, 22), -1);
}

#[test]
fn text_width_sums_whole_pixels() {
    assert_eq!(text_width_from_advances(&vec![64 * 7, 64 * 7 + 63, 64 * 5]), 19);
    assert_eq!(text_width_from_advances(&vec![-64 * 3, 64]), 0);
    assert_eq!(text_width_from_advances(&vec![-1]), 0);
    assert_eq!(text_width_from_advances(&vec![]), 0);
}

#[test]
fn rendered_icon_from_canvas() {
    let icon = RenderedIcon::from_premultiplied(1, 1, &vec![0x11, 0x22, 0x33, 0xff]);
    assert_eq!(icon.width, 1);
    assert_eq!(icon.height, 1);
    assert_eq!(icon.argb, vec![0xff, 0x11, 0x22, 0x33]);
}

#[test]
fn png_of_a_small_canvas() {
    let canvas = vec![0x00, 0x80, 0x00, 0x80, 0x11, 0x22, 0x33, 0xff];
    let png = encode_icon_png(2, 1, &canvas).unwrap();
    assert_eq!(&png[1..4], b"PNG");
    let decoded = image::load_from_memory(&png).unwrap().to_rgba8();
    assert_eq!(decoded.dimensions(), (2, 1));
    assert_eq!(decoded.into_raw(), vec![0x00, 0xff, 0x00, 0x80, 0x11, 0x22, 0x33, 0xff]);
}

#[test]
fn png_needs_a_large_enough_canvas() {
    assert_eq!(encode_icon_png(2, 2, &vec![0u8; 15]), Err(RenderError::CanvasTooSmall));
    assert!(encode_icon_png(1, 1, &vec![0u8; 8]).is_ok());
    assert_eq!(encode_icon_png(0, 3, &vec![]), Err(RenderError::Encoding));
}
