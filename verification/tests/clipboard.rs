use slate::clipboard::{
    clipboard_path_candidate, clipboard_text_path, paste_file_name, paths_from_text, percent_decode, text_looks_like_paths,
    PasteChord, MAX_PASTE_PIXELS,
};
use slate::clipboard_bitmap::{
    decode_clipboard_bitmap, decode_dib, dib_fits, mask_channel, png_dims_within_limits,
    png_within_limits,
};

fn dib_header(width: i32, height: i32, bit_count: u16) -> Vec<u8> {
    let mut h = vec![0u8; 40];
    h[0..4].copy_from_slice(&40u32.to_le_bytes());
    h[4..8].copy_from_slice(&width.to_le_bytes());
    h[8..12].copy_from_slice(&height.to_le_bytes());
    h[12..14].copy_from_slice(&1u16.to_le_bytes());
    h[14..16].copy_from_slice(&bit_count.to_le_bytes());
    h
}

fn png_pixel(png: &[u8]) -> [u8; 4] {
    image::load_from_memory(png).unwrap().to_rgba8().get_pixel(0, 0).0
}

#[test]
fn dib_32_zero_alpha_pastes_as_opaque_color() {
    let mut dib = dib_header(1, 1, 32);
    dib.extend_from_slice(&[0, 0, 255, 0]); // B, G, R, unused alpha → red
    let png = decode_clipboard_bitmap(&dib).unwrap();
    assert_eq!(png_pixel(&png), [255, 0, 0, 255]);
}

#[test]
fn dib_24_pads_rows_and_keeps_color() {
    let mut dib = dib_header(1, 1, 24);
    dib.extend_from_slice(&[10, 20, 30, 0]); // BGR + pad
    let png = decode_clipboard_bitmap(&dib).unwrap();
    assert_eq!(png_pixel(&png), [30, 20, 10, 255]);
}

#[test]
fn top_down_dib_keeps_the_first_row_on_top() {
    let mut dib = dib_header(1, -2, 32);
    dib.extend_from_slice(&[0, 0, 255, 0]); // top: red
    dib.extend_from_slice(&[0, 255, 0, 0]); // bottom: green
    let png = decode_clipboard_bitmap(&dib).unwrap();
    let img = image::load_from_memory(&png).unwrap().to_rgba8();
    assert_eq!(img.get_pixel(0, 0).0, [255, 0, 0, 255]);
    assert_eq!(img.get_pixel(0, 1).0, [0, 255, 0, 255]);
}

#[test]
fn bmp_file_header_points_at_the_pixels() {
    let mut dib = dib_header(1, 1, 32);
    dib.extend_from_slice(&[255, 0, 0, 0]); // blue channel in BGRA, zero alpha
    let mut bmp = vec![0u8; 14];
    bmp[0..2].copy_from_slice(b"BM");
    let off = (14 + dib.len() - 4) as u32;
    bmp[10..14].copy_from_slice(&off.to_le_bytes());
    bmp.extend_from_slice(&dib);
    let png = decode_clipboard_bitmap(&bmp).unwrap();
    assert_eq!(png_pixel(&png), [0, 0, 255, 255]);
}

#[test]
fn bottom_up_rows_are_flipped_and_real_alpha_is_kept() {
    let mut dib = dib_header(2, 2, 32);
    dib.extend_from_slice(&[1, 2, 3, 10, 4, 5, 6, 20]); // bottom row
    dib.extend_from_slice(&[7, 8, 9, 30, 10, 11, 12, 40]); // top row
    let (w, h, px) = decode_dib(&dib).unwrap();
    assert_eq!((w, h), (2, 2));
    assert_eq!(px, vec![9, 8, 7, 30, 12, 11, 10, 40, 3, 2, 1, 10, 6, 5, 4, 20]);
}

#[test]
fn bitfield_masks_pick_the_channels() {
    // BI_BITFIELDS, 32-bit, masks R = 0x00FF0000, G = 0x0000FF00, B = 0x000000FF.
    let mut dib = dib_header(1, 1, 32);
    dib[16..20].copy_from_slice(&3u32.to_le_bytes());
    dib.extend_from_slice(&0x00FF_0000u32.to_le_bytes());
    dib.extend_from_slice(&0x0000_FF00u32.to_le_bytes());
    dib.extend_from_slice(&0x0000_00FFu32.to_le_bytes());
    dib.extend_from_slice(&[0x30, 0x20, 0x10, 0x00]);
    let (_, _, px) = decode_dib(&dib).unwrap();
    assert_eq!(px, vec![0x10, 0x20, 0x30, 255]);
    // A five-bit channel stretches to the full byte range.
    assert_eq!(mask_channel(0x1F, 0x1F), 255);
    assert_eq!(mask_channel(0x10, 0x1F), 131);
    assert_eq!(mask_channel(0xABCD, 0), 0);
    assert_eq!(mask_channel(0x1234_5678, 0x0000_FF00), 0x56);
}

#[test]
fn unsupported_or_short_bitmaps_are_refused() {
    assert!(decode_dib(&dib_header(1, 1, 32)).is_none(), "no pixels");
    assert!(decode_dib(&dib_header(1, 1, 8)).is_none(), "palette bitmap");
    assert!(decode_dib(&dib_header(0, 1, 32)).is_none(), "zero width");
    assert!(decode_dib(&dib_header(1, 0, 32)).is_none(), "zero height");
    assert!(decode_dib(&dib_header(1, i32::MIN, 32)).is_none());
    assert!(decode_dib(&dib_header(100_000, 100_000, 32)).is_none(), "too many pixels");
    assert!(decode_dib(&[0u8; 10]).is_none());
    let mut rle = dib_header(1, 1, 32);
    rle[16..20].copy_from_slice(&1u32.to_le_bytes());
    rle.extend_from_slice(&[0, 0, 0, 0]);
    assert!(decode_dib(&rle).is_none(), "compressed");
    assert!(decode_clipboard_bitmap(&rle).is_none());
    assert!(MAX_PASTE_PIXELS == 64 * 1024 * 1024);
}

#[test]
fn row_runs_must_fit_the_buffer() {
    let data = [0u8; 16];
    assert!(dib_fits(&data, 0, 4, 4));
    assert!(!dib_fits(&data, 1, 4, 4));
    assert!(!dib_fits(&data, usize::MAX, 1, 1));
    assert!(!dib_fits(&data, 0, usize::MAX, 2));
}

#[test]
fn pasted_png_bytes_are_checked_before_use() {
    let mut dib = dib_header(2, 3, 24);
    dib.extend_from_slice(&[0u8; 24]);
    let png = decode_clipboard_bitmap(&dib).unwrap();
    assert!(png_within_limits(&png));
    let mut bad = png.clone();
    bad[0] = 0;
    assert!(!png_within_limits(&bad));
    assert!(!png_within_limits(&png[..20]));
    assert!(png_dims_within_limits(Some((8192, 8192))));
    assert!(!png_dims_within_limits(Some((8193, 8192))));
    assert!(!png_dims_within_limits(Some((0, 5))));
    assert!(!png_dims_within_limits(None));
}

#[test]
fn clipboard_text_path_accepts_a_file_url_and_rejects_a_page() {
    let (input, expected) = if std::path::MAIN_SEPARATOR == '\\' {
        ("file:///C:/shots/a%20b.png", "C:/shots/a b.png")
    } else {
        ("file:///tmp/a%20b.png", "/tmp/a b.png")
    };
    assert_eq!(clipboard_text_path(input).as_deref(), Some(expected));
    assert!(clipboard_text_path("https://example.com/a.png").is_none());
    assert!(clipboard_text_path("[{\"id\":1}]").is_none());
}

#[test]
fn windows_file_urls_drop_the_slash_before_the_drive() {
    assert_eq!(
        clipboard_path_candidate("  \"file:///C:/shots/a%20b.png\" ").as_deref(),
        Some("C:/shots/a b.png")
    );
    assert_eq!(clipboard_path_candidate("file:///tmp/x").as_deref(), Some("/tmp/x"));
    assert_eq!(clipboard_path_candidate("relative/x.png").as_deref(), Some("relative/x.png"));
    assert!(clipboard_text_path("relative/x.png").is_none(), "relative everywhere");
    assert!(clipboard_path_candidate("   ").is_none());
    assert!(clipboard_path_candidate("https://example.com/x.png").is_none());
    // Each platform's own rule decides what is absolute.
    let windows = std::path::MAIN_SEPARATOR == '\\';
    assert_eq!(clipboard_text_path("C:\\shots\\x.png").is_some(), windows);
    assert_eq!(clipboard_text_path("/tmp/x.png").is_some(), !windows);
}

#[test]
fn percent_decoding_reads_utf8_escapes() {
    assert_eq!(percent_decode("a%20b"), "a b");
    assert_eq!(percent_decode("%C3%A9t%C3%A9"), "été");
    assert_eq!(percent_decode("100%"), "100%");
    assert_eq!(percent_decode("no escapes"), "no escapes");
}

#[test]
fn a_list_of_paths_is_told_from_prose() {
    assert!(text_looks_like_paths("/tmp/a.png\n\n/tmp/b.png\n"));
    assert!(!text_looks_like_paths("/tmp/a.png\nnot a path"));
    assert!(!text_looks_like_paths("\n  \n"));
    assert_eq!(
        paths_from_text("/tmp/a.png\r\n/tmp/b.png"),
        Some(vec!["/tmp/a.png".to_string(), "/tmp/b.png".to_string()])
    );
    assert_eq!(paths_from_text("hello"), None);
}

#[test]
fn the_paste_chord_fires_once_per_press_in_a_focused_window() {
    let mut c = PasteChord::new();
    assert_eq!(c.take_edge(true, Some(false)), Some(false));
    assert_eq!(c.take_edge(true, Some(false)), None, "still held");
    assert_eq!(c.take_edge(true, None), None);
    assert_eq!(c.take_edge(true, Some(true)), Some(true), "shift pastes in place");
    c.take_edge(true, None);
    assert_eq!(c.take_edge(false, Some(false)), None, "unfocused only tracks");
    assert_eq!(c.take_edge(true, Some(false)), None, "no new edge");
}

#[test]
fn pasted_bitmaps_get_time_stamped_names() {
    assert_eq!(paste_file_name(1_700_000_000_123, 0), "paste-1700000000123.png");
    assert_eq!(paste_file_name(42, 7), "paste-42-7.png");
}
