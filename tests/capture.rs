use snapmag::digest::calculate_hash;
use snapmag::paths::convert_path_protocol;
use snapmag::files::{extract_image_from_files, is_image_path, needs_conversion, normalize_image, DroppedFile};
use snapmag::poller::update_event;
use snapmag::types::ImageMetadata;
use snapmag::poller::{extract_image, ClipboardListener, ClipboardSnapshot};

fn bmp_bytes() -> Vec<u8> {
    let img = image::RgbImage::from_pixel(3, 2, image::Rgb([9, 8, 7]));
    let mut out = Vec::new();
    img.write_to(&mut std::io::Cursor::new(&mut out), image::ImageFormat::Bmp).unwrap();
    out
}

fn red_dib() -> Vec<u8> {
    let mut buf = vec![0u8; 40 + 4];
    buf[0] = 40;
    buf[4] = 1;
    buf[8] = 1;
    buf[14] = 24;
    buf[42] = 255;
    buf
}

fn file(path: &str, content: Option<Vec<u8>>) -> DroppedFile {
    DroppedFile { path: path.to_string(), content, converted: None }
}

#[test]
fn image_extensions_match_in_any_case() {
    for p in ["a.png", "A.PNG", "x/y.JpG", "z.jpeg", "b.bmp", "g.GIF", "w.webp", "t.tiff", "t.TIF"] {
        assert!(is_image_path(p), "{}", p);
    }
    for p in ["notes.txt", "png", "a.png.txt", "", "a.pn", "a.tifff"] {
        assert!(!is_image_path(p), "{}", p);
    }
}

#[test]
fn file_drop_skips_text_and_takes_bitmap_verbatim() {
    let bmp = bmp_bytes();
    let files = vec![file("notes.txt", Some(b"hello".to_vec())), file("shot.bmp", Some(bmp.clone()))];
    assert_eq!(extract_image_from_files(&files), Some(bmp));
}

#[test]
fn file_drop_converts_tiff_and_stops_at_first_success() {
    let img = image::RgbImage::from_pixel(1, 1, image::Rgb([5, 6, 7]));
    let mut tiff = Vec::new();
    img.write_to(&mut std::io::Cursor::new(&mut tiff), image::ImageFormat::Tiff).unwrap();
    assert!(needs_conversion(&tiff));
    assert!(needs_conversion(b"garbage"));
    assert!(!needs_conversion(&bmp_bytes()));
    let png = b"\x89PNG\r\n\x1a\nconverted".to_vec();
    let mut scan = file("scan.tif", Some(tiff));
    scan.converted = Some(png.clone());
    let files = vec![
        file("broken.png", Some(b"garbage".to_vec())),
        file("missing.png", None),
        scan,
        file("later.bmp", Some(bmp_bytes())),
    ];
    assert_eq!(extract_image_from_files(&files), Some(png));
    assert!(extract_image_from_files(&vec![file("a.txt", None)]).is_none());
    assert!(normalize_image(b"garbage", &None).is_none());
    assert_eq!(normalize_image(b"garbage", &Some(vec![1])), Some(vec![1]));
    assert_eq!(normalize_image(b"BMxx", &Some(vec![1])), Some(b"BMxx".to_vec()));
}

#[test]
fn cooldown_collapses_bursts_and_accepts_later_content() {
    let mut l = ClipboardListener::new();
    assert!(l.on_detection("h1".to_string(), 10_000));
    assert!(!l.on_detection("h2".to_string(), 11_999));
    assert!(l.on_detection("h3".to_string(), 12_000));
    assert_eq!(l.last_hash.as_deref(), Some("h3"));
    assert_eq!(l.last_detection_time, 12_000);
}

#[test]
fn same_content_is_ignored_until_reset() {
    let mut l = ClipboardListener::new();
    assert!(l.on_detection("h".to_string(), 5_000));
    assert!(!l.on_detection("h".to_string(), 9_000));
    l.reset_hash();
    assert_eq!(l.last_detection_time, 5_000);
    assert!(l.on_detection("h".to_string(), 9_000));
}

#[test]
fn first_detection_needs_the_cooldown_from_zero() {
    let mut l = ClipboardListener::new();
    assert!(!l.on_detection("h".to_string(), 1_999));
    assert!(l.on_detection("h".to_string(), 2_000));
    let mut late = ClipboardListener { last_hash: None, last_detection_time: u64::MAX };
    assert!(!late.on_detection("h".to_string(), u64::MAX));
}

#[test]
fn file_drop_wins_over_bitmaps() {
    let bmp = bmp_bytes();
    let snap = ClipboardSnapshot {
        files: Some(vec![file("shot.bmp", Some(bmp.clone()))]),
        dibv5: None,
        dib: Some(red_dib()),
    };
    assert_eq!(extract_image(&snap), Some(bmp));
    let bitmap_only = ClipboardSnapshot { files: Some(vec![file("a.txt", None)]), dibv5: None, dib: Some(red_dib()) };
    let png = extract_image(&bitmap_only).unwrap();
    let img = image::load_from_memory(&png).unwrap().to_rgb8();
    assert_eq!(img.get_pixel(0, 0).0, [255, 0, 0]);
    let empty = ClipboardSnapshot { files: None, dibv5: None, dib: None };
    assert!(extract_image(&empty).is_none());
}

#[test]
fn poll_cycle_hands_out_new_images_once() {
    let mut l = ClipboardListener::new();
    let snap = ClipboardSnapshot { files: None, dibv5: None, dib: Some(red_dib()) };
    let first = l.poll_cycle(&snap, 10_000).unwrap();
    assert_eq!(l.last_hash, Some(calculate_hash(&first)));
    assert!(l.poll_cycle(&snap, 10_200).is_none());
    assert!(l.poll_cycle(&snap, 20_000).is_none());
    l.reset_hash();
    assert_eq!(l.poll_cycle(&snap, 20_200), Some(first));
}

#[test]
fn paths_become_asset_addresses() {
    assert_eq!(convert_path_protocol("C:\\Temp\\a.png"), "asset://localhost/C:/Temp/a.png");
    assert_eq!(convert_path_protocol("/tmp/a.png"), "asset://localhost//tmp/a.png");
    assert_eq!(convert_path_protocol("asset://localhost/x.png"), "asset://localhost/x.png");
    assert_eq!(convert_path_protocol(""), "asset://localhost/");
}

#[test]
fn only_new_images_are_announced() {
    let r = ImageMetadata::fresh("id".to_string(), "/s/id.png".to_string(), 1);
    assert_eq!(update_event(&r, true), None);
    assert_eq!(update_event(&r, false).unwrap().image_path, "/s/id.png");
}
