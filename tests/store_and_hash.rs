use snapmag::digest::calculate_hash;
use snapmag::store::{bytes_equal, conversion_needed, ImageManager, SavePlan, StoreError, StoredFile};
use snapmag::types::{ClipboardEvent, ImageMetadata};

const PNG_MAGIC: &[u8] = b"\x89PNG\r\n\x1a\nrest";

fn entry(name: &str, content: Option<&[u8]>) -> StoredFile {
    let stem = name.rsplit_once('.').map(|(s, _)| s).unwrap_or(name).to_string();
    StoredFile {
        name: name.to_string(),
        stem,
        path: format!("/store/{}", name),
        is_file: true,
        content: content.map(|c| c.to_vec()),
    }
}

/// Carries a plan out against an in-memory directory.
fn save(m: &mut ImageManager, dir: &mut Vec<StoredFile>, data: &[u8], now: i64) -> (ImageMetadata, bool) {
    match m.save_image(data, None, dir, now).unwrap() {
        SavePlan::Duplicate(r) => (r, true),
        SavePlan::Write { record, bytes } => {
            let name = record.path.rsplit('/').next().unwrap().to_string();
            dir.push(entry(&name, Some(&bytes)));
            m.record_saved(record.clone());
            (record, false)
        }
    }
}

#[test]
fn hash_is_lowercase_hex_sha256() {
    assert_eq!(
        calculate_hash(b"abc"),
        "ba7816bf8f01cfea414140de5dae2223b00361a396177a9cb410ff61f20015ad"
    );
    assert_eq!(
        calculate_hash(b""),
        "e3b0c44298fc1c149afbf4c8996fb92427ae41e4649b934ca495991b7852b855"
    );
}

#[test]
fn saving_twice_gives_new_then_duplicate_and_one_file() {
    let mut m = ImageManager::new("/store".to_string());
    let mut dir = Vec::new();
    let (first, dup1) = save(&mut m, &mut dir, PNG_MAGIC, 100);
    let (second, dup2) = save(&mut m, &mut dir, PNG_MAGIC, 200);
    assert!(!dup1);
    assert!(dup2);
    assert_eq!(first, second);
    let hash = calculate_hash(PNG_MAGIC);
    assert_eq!(first.id, hash);
    assert_eq!(first.path, format!("/store/{}.png", hash));
    assert_eq!(first.created_at, 100);
    assert_eq!(first.ocr_result, None);
    assert_eq!(dir.len(), 1);
    assert_eq!(dir[0].stem, hash);
}

#[test]
fn different_payloads_get_their_own_records_and_files() {
    let mut m = ImageManager::new("/store".to_string());
    let mut dir = Vec::new();
    let (a, da) = save(&mut m, &mut dir, b"\x89PNG\r\n\x1a\none", 1);
    let (b, db) = save(&mut m, &mut dir, b"\x89PNG\r\n\x1a\ntwo", 2);
    assert!(!da && !db);
    assert_ne!(a.id, b.id);
    assert_ne!(a.path, b.path);
    assert_eq!(m.get_images().len(), 2);
    assert_eq!(dir.len(), 2);
}

#[test]
fn extension_follows_sniffed_format() {
    let m = ImageManager::new("/s".to_string());
    let cases: [(&[u8], &str); 5] = [
        (&[0xff, 0xd8, 0xff, 0x00], "jpg"),
        (b"GIF89a...", "gif"),
        (b"RIFF\x01\x02\x03\x04WEBPxx", "webp"),
        (b"BMxxxx", "bmp"),
        (b"not an image at all", "png"),
    ];
    for (data, ext) in cases.iter() {
        match m.save_image(data, None, &Vec::new(), 5).unwrap() {
            SavePlan::Write { record, bytes } => {
                assert_eq!(record.path, format!("/s/{}.{}", calculate_hash(data), ext));
                assert_eq!(bytes, data.to_vec());
            }
            SavePlan::Duplicate(_) => panic!("expected a new record"),
        }
    }
}

#[test]
fn other_formats_are_converted_to_png() {
    let img = image::RgbImage::from_pixel(2, 2, image::Rgb([1, 2, 3]));
    let mut tiff = Vec::new();
    img.write_to(&mut std::io::Cursor::new(&mut tiff), image::ImageFormat::Tiff).unwrap();
    assert!(conversion_needed(&tiff));
    let mut png = Vec::new();
    image::load_from_memory(&tiff)
        .unwrap()
        .write_to(&mut std::io::Cursor::new(&mut png), image::ImageFormat::Png)
        .unwrap();
    let m = ImageManager::new("/s".to_string());
    match m.save_image(&tiff, Some(png.clone()), &Vec::new(), 5).unwrap() {
        SavePlan::Write { record, bytes } => {
            assert!(record.path.ends_with(".png"));
            assert_eq!(record.id, calculate_hash(&tiff));
            assert_eq!(bytes, png);
            let back = image::load_from_memory(&bytes).unwrap().to_rgb8();
            assert_eq!(back.get_pixel(1, 1).0, [1, 2, 3]);
        }
        SavePlan::Duplicate(_) => panic!("expected a new record"),
    }
}

#[test]
fn unconvertible_payload_is_an_error() {
    let m = ImageManager::new("/s".to_string());
    assert!(conversion_needed(b"II*\x00garbage"));
    let r = m.save_image(b"II*\x00garbage", None, &Vec::new(), 5);
    assert!(matches!(r, Err(StoreError::ConversionFailed)));
}

#[test]
fn file_with_same_content_on_disk_is_a_duplicate() {
    let m = ImageManager::new("/store".to_string());
    let dir = vec![entry("other.txt", Some(b"x")), entry("old.png", Some(PNG_MAGIC))];
    match m.save_image(PNG_MAGIC, None, &dir, 77).unwrap() {
        SavePlan::Duplicate(r) => {
            assert_eq!(r.id, "old");
            assert_eq!(r.path, "/store/old.png");
            assert_eq!(r.created_at, 77);
        }
        _ => panic!("expected a duplicate"),
    }
}

#[test]
fn file_named_by_hash_on_disk_is_a_duplicate() {
    let m = ImageManager::new("/store".to_string());
    let hash = calculate_hash(PNG_MAGIC);
    let dir = vec![entry(&format!("{}.gif", hash), Some(b"different"))];
    match m.save_image(PNG_MAGIC, None, &dir, 3).unwrap() {
        SavePlan::Duplicate(r) => assert_eq!(r.id, hash),
        _ => panic!("expected a duplicate"),
    }
}

#[test]
fn unreadable_or_non_file_entries_do_not_count_as_copies() {
    let m = ImageManager::new("/store".to_string());
    let mut unreadable = entry("a.png", None);
    unreadable.content = None;
    let mut folder = entry("b.png", Some(PNG_MAGIC));
    folder.is_file = false;
    match m.save_image(PNG_MAGIC, None, &vec![unreadable, folder], 3).unwrap() {
        SavePlan::Write { .. } => {}
        _ => panic!("expected a new record"),
    }
}

#[test]
fn taken_target_name_is_a_duplicate() {
    let m = ImageManager::new("/store".to_string());
    let hash = calculate_hash(PNG_MAGIC);
    let mut e = entry(&format!("{}.png", hash), None);
    e.content = None;
    match m.save_image(PNG_MAGIC, None, &vec![e], 9).unwrap() {
        SavePlan::Duplicate(r) => {
            assert_eq!(r.path, format!("/store/{}.png", hash));
            assert_eq!(r.created_at, 9);
        }
        _ => panic!("expected a duplicate"),
    }
}

#[test]
fn images_come_newest_first() {
    let mut m = ImageManager::new("/s".to_string());
    let mut dir = Vec::new();
    save(&mut m, &mut dir, b"one", 20);
    save(&mut m, &mut dir, b"two", 40);
    save(&mut m, &mut dir, b"three", 30);
    let times: Vec<i64> = m.get_images().iter().map(|r| r.created_at).collect();
    assert_eq!(times, vec![40, 30, 20]);
}

#[test]
fn delete_is_idempotent() {
    let mut m = ImageManager::new("/s".to_string());
    let mut dir = Vec::new();
    let (r, _) = save(&mut m, &mut dir, b"one", 20);
    let gone = m.delete_image(&r.id).unwrap();
    assert_eq!(gone.path, r.path);
    assert!(m.delete_image(&r.id).is_none());
    assert!(m.get_images().is_empty());
}

#[test]
fn clear_all_returns_every_path() {
    let mut m = ImageManager::new("/s".to_string());
    let mut dir = Vec::new();
    let (a, _) = save(&mut m, &mut dir, b"one", 1);
    let (b, _) = save(&mut m, &mut dir, b"two", 2);
    assert_eq!(m.clear_all(), vec![a.path, b.path]);
    assert!(m.get_images().is_empty());
}

#[test]
fn cleanup_with_zero_hours_removes_everything_older() {
    let mut m = ImageManager::new("/s".to_string());
    let mut dir = Vec::new();
    save(&mut m, &mut dir, b"one", 1000);
    save(&mut m, &mut dir, b"two", 2000);
    let removed = m.cleanup_old_images(0, 5000);
    assert_eq!(removed.len(), 2);
    assert!(m.get_images().is_empty());
}

#[test]
fn cleanup_keeps_recent_records() {
    let mut m = ImageManager::new("/s".to_string());
    let mut dir = Vec::new();
    save(&mut m, &mut dir, b"old", 0);
    save(&mut m, &mut dir, b"edge", 3600);
    save(&mut m, &mut dir, b"new", 7000);
    let removed = m.cleanup_old_images(1, 7200);
    assert_eq!(removed.iter().map(|r| r.created_at).collect::<Vec<_>>(), vec![0]);
    let kept: Vec<i64> = m.get_images().iter().map(|r| r.created_at).collect();
    assert_eq!(kept, vec![7000, 3600]);
    // extreme inputs do not overflow
    assert_eq!(m.cleanup_old_images(i64::MAX, i64::MIN).len(), 0);
    assert_eq!(m.cleanup_old_images(i64::MIN, i64::MAX).len(), 2);
}

#[test]
fn record_saved_replaces_same_id() {
    let mut m = ImageManager::new("/s".to_string());
    m.record_saved(ImageMetadata::fresh("a".to_string(), "/s/a.png".to_string(), 1));
    m.record_saved(ImageMetadata::fresh("a".to_string(), "/s/a.png".to_string(), 2));
    assert_eq!(m.get_images().len(), 1);
    assert_eq!(m.get_images()[0].created_at, 2);
    assert_eq!(m.find(&"a".to_string()), Some(0));
}

#[test]
fn bytes_compare_by_content() {
    assert!(bytes_equal(b"abc", b"abc"));
    assert!(!bytes_equal(b"abc", b"abd"));
    assert!(!bytes_equal(b"abc", b"ab"));
}

#[test]
fn event_carries_the_path() {
    assert_eq!(ClipboardEvent::new("/p.png".to_string()).image_path, "/p.png");
}

#[test]
fn plan_uses_the_given_hash_for_name_and_id() {
    let m = ImageManager::new("/s".to_string());
    match m.save_image_with_hash(b"BMxx", "abc".to_string(), None, &Vec::new(), 4).unwrap() {
        SavePlan::Write { record, bytes } => {
            assert_eq!(record.id, "abc");
            assert_eq!(record.path, "/s/abc.bmp");
            assert_eq!(bytes, b"BMxx".to_vec());
        }
        _ => panic!("expected a new record"),
    }
    let dir = vec![entry("abc.bmp", None)];
    assert!(matches!(
        m.save_image_with_hash(b"BMxx", "abc".to_string(), None, &dir, 4).unwrap(),
        SavePlan::Duplicate(_)
    ));
}

#[test]
fn storable_formats_need_no_conversion() {
    assert!(!conversion_needed(b"\x89PNG\r\n\x1a\nrest"));
    assert!(!conversion_needed(b"BMxx"));
    assert!(!conversion_needed(b"unknown bytes"));
    // the conversion is only consulted for formats that are converted
    let m = ImageManager::new("/s".to_string());
    match m.save_image(b"BMxx", Some(b"other".to_vec()), &Vec::new(), 1).unwrap() {
        SavePlan::Write { bytes, .. } => assert_eq!(bytes, b"BMxx".to_vec()),
        _ => panic!("expected a new record"),
    }
}
