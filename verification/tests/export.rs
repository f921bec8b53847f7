use fractalx::export::{
    bookmark_index, expand_rgb, frame_rgba, load_bookmark_json, read_png_rgba, save_png, Frame,
    BOOKMARK_KEYWORD, DECODER_BYTES, LEGACY_BOOKMARK_KEYWORD,
};

/// A PNG written by hand, with a text chunk if there is one.
fn plain_png(color: png::ColorType, data: &[u8], text: Option<(&str, &str)>) -> Vec<u8> {
    let mut bytes = Vec::new();
    let mut encoder = png::Encoder::new(&mut bytes, 4, 4);
    encoder.set_color(color);
    encoder.set_depth(png::BitDepth::Eight);
    if let Some((keyword, text)) = text {
        encoder.add_itxt_chunk(keyword.to_owned(), text.to_owned()).unwrap();
    }
    let mut writer = encoder.write_header().unwrap();
    writer.write_image_data(data).unwrap();
    drop(writer);
    bytes
}

#[test]
fn bookmark_survives_png_round_trip() {
    let json = r#"{"app":"fractalx","version":1,"view":{"center":[-0.5,0.25]}}"#;
    let rgba = vec![128u8; 8 * 8 * 4];
    let png = save_png(8, 8, &rgba, json).unwrap();
    assert_eq!(load_bookmark_json(&png).unwrap(), json);
}

#[test]
fn pixels_survive_png_round_trip() {
    let rgba: Vec<u8> = (0..6 * 4 * 4).map(|i| (i * 7 % 256) as u8).collect();
    let png = save_png(6, 4, &rgba, "{}").unwrap();

    let (w, h, back) = read_png_rgba(&png).unwrap();
    assert_eq!((w, h), (6, 4));
    assert_eq!(back, rgba);
}

#[test]
fn png_without_bookmark_reports_error() {
    let png = plain_png(png::ColorType::Rgba, &[0u8; 4 * 4 * 4], None);
    assert!(load_bookmark_json(&png).is_err());
    assert_eq!(
        load_bookmark_json(&png).unwrap_err(),
        "no FractalX bookmark found in this PNG"
    );
}

#[test]
fn legacy_bookmarks_still_load_and_strangers_do_not() {
    let data = [0u8; 4 * 4 * 4];
    let legacy = plain_png(png::ColorType::Rgba, &data, Some((LEGACY_BOOKMARK_KEYWORD, "old")));
    assert_eq!(load_bookmark_json(&legacy).unwrap(), "old");
    let stranger = plain_png(png::ColorType::Rgba, &data, Some(("Comment", "hello")));
    assert!(load_bookmark_json(&stranger).is_err());
}

#[test]
fn texts_of_any_language_survive() {
    let json = "{\"name\":\"Lévy — 曲線\"}";
    let png = save_png(1, 2, &[1, 2, 3, 4, 5, 6, 7, 8], json).unwrap();
    assert_eq!(load_bookmark_json(&png).unwrap(), json);
    assert_eq!(read_png_rgba(&png).unwrap(), (1, 2, vec![1, 2, 3, 4, 5, 6, 7, 8]));
}

#[test]
fn images_without_size_or_with_other_samples_are_refused() {
    assert_eq!(save_png(0, 0, &[], "{}").unwrap_err(), "Zero width not allowed");
    assert_eq!(save_png(0, 4, &[], "{}").unwrap_err(), "Zero width not allowed");
    assert_eq!(save_png(4, 0, &[], "{}").unwrap_err(), "Zero height not allowed");
    assert_eq!(
        save_png(2, 2, &[0; 15], "{}").unwrap_err(),
        "wrong data size, expected 16 got 15"
    );
    assert_eq!(
        save_png(2, 2, &[0; 17], "{}").unwrap_err(),
        "wrong data size, expected 16 got 17"
    );
    assert!(save_png(2, 2, &[0; 16], "{}").is_ok());
}

#[test]
fn what_exceeds_the_allowance_is_refused() {
    let text = "t".repeat(DECODER_BYTES + 1);
    let png = save_png(1, 1, &[1, 2, 3, 4], &text).unwrap();
    assert_eq!(load_bookmark_json(&png).unwrap_err(), "limits are exceeded");
    assert_eq!(read_png_rgba(&png).unwrap_err(), "limits are exceeded");
}

#[test]
fn long_texts_and_wide_images_are_read_back() {
    // Three times the chunk and one row fill the decoder's allowance.
    let text = "t".repeat((DECODER_BYTES - 4) / 3 - BOOKMARK_KEYWORD.len() - 5);
    let png = save_png(1, 1, &[1, 2, 3, 4], &text).unwrap();
    assert!(load_bookmark_json(&png).unwrap() == text);
    assert_eq!(read_png_rgba(&png).unwrap(), (1, 1, vec![1, 2, 3, 4]));

    let width = (DECODER_BYTES as u32 - 3 * (BOOKMARK_KEYWORD.len() as u32 + 5 + 2)) / 4;
    let row: Vec<u8> = (0..4 * width).map(|i| (i / 1000) as u8).collect();
    let png = save_png(width, 1, &row, "{}").unwrap();
    assert_eq!(load_bookmark_json(&png).unwrap(), "{}");
    assert!(read_png_rgba(&png).unwrap() == (width, 1, row));
}

#[test]
fn rgb_images_are_expanded_and_others_refused() {
    let rgb: Vec<u8> = (0..48).collect();
    let png = plain_png(png::ColorType::Rgb, &rgb, None);
    let (w, h, rgba) = read_png_rgba(&png).unwrap();
    assert_eq!((w, h), (4, 4));
    assert_eq!(rgba, expand_rgb(&rgb));
    assert_eq!(&rgba[..8], &[0, 1, 2, 255, 3, 4, 5, 255]);

    let gray = plain_png(png::ColorType::Grayscale, &[0u8; 16], None);
    assert_eq!(
        read_png_rgba(&gray).unwrap_err(),
        "unsupported PNG format Grayscale/Eight"
    );
    let gray_alpha = plain_png(png::ColorType::GrayscaleAlpha, &[0u8; 32], None);
    assert_eq!(
        read_png_rgba(&gray_alpha).unwrap_err(),
        "unsupported PNG format GrayscaleAlpha/Eight"
    );
    assert!(read_png_rgba(b"no image").is_err());
    assert!(load_bookmark_json(b"no image").is_err());
}

#[test]
fn frames_are_judged_by_their_codes() {
    let frame = |color: u8, depth: u8| {
        Some(Frame {
            width: 1,
            height: 1,
            color,
            depth,
            data: vec![1, 2, 3, 4],
        })
    };
    assert_eq!(frame_rgba(frame(6, 8)).unwrap(), (1, 1, vec![1, 2, 3, 4]));
    assert_eq!(frame_rgba(frame(2, 8)).unwrap(), (1, 1, vec![1, 2, 3, 255]));
    let words = |color: u8, depth: u8| frame_rgba(frame(color, depth)).unwrap_err();
    assert_eq!(words(6, 16), "unsupported PNG format Rgba/Sixteen");
    assert_eq!(words(2, 16), "unsupported PNG format Rgb/Sixteen");
    assert_eq!(words(3, 1), "unsupported PNG format Indexed/One");
    assert_eq!(words(3, 2), "unsupported PNG format Indexed/Two");
    assert_eq!(words(0, 4), "unsupported PNG format Grayscale/Four");
    assert_eq!(frame_rgba(None).unwrap_err(), "PNG too large to decode");
}

#[test]
fn the_first_bookmark_counts() {
    let words = |list: &[&str]| list.iter().map(|w| w.to_string()).collect::<Vec<String>>();
    assert_eq!(bookmark_index(&words(&[])), None);
    assert_eq!(bookmark_index(&words(&["a", "b"])), None);
    assert_eq!(
        bookmark_index(&words(&["a", LEGACY_BOOKMARK_KEYWORD, BOOKMARK_KEYWORD])),
        Some(1)
    );
    assert_eq!(bookmark_index(&words(&[BOOKMARK_KEYWORD])), Some(0));
}
