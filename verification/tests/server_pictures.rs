use family_frame::server::photo::{
    pack_nibbles, photo_nibble, photo_nibbles, rgba_to_rgb_flat, CRATE_TO_NIBBLE, DITHER_VERSION,
};
use family_frame::server::pictures::{
    advance_index, current_id, extension_for, find_picture, is_original_file, is_picture_file,
    list_items, mark_dithered, needs_redither, remove_picture, validate_rotate_ids, PictureMeta,
};

fn meta(id: &str, version: u32) -> PictureMeta {
    PictureMeta {
        id: id.to_string(),
        filename: format!("{id}.jpg"),
        uploaded_at: "2026-01-01T00:00:00Z".to_string(),
        dither_version: version,
    }
}

fn ids(v: &[&str]) -> Vec<String> {
    v.iter().map(|s| s.to_string()).collect()
}

#[test]
fn crate_to_nibble_matches_tesserae() {
    assert_eq!(CRATE_TO_NIBBLE, [0, 1, 2, 3, 5, 6]);
}

#[test]
fn photo_nibbles_paint_green_black() {
    assert_eq!(photo_nibble(0), 0);
    assert_eq!(photo_nibble(4), 5);
    assert_eq!(photo_nibble(5), 0);
    assert_eq!(photo_nibble(9), 0);
    assert_eq!(photo_nibbles(&[1, 2, 3, 4, 5]), vec![1, 2, 3, 5, 0]);
}

#[test]
fn pack_nibbles_two_per_byte() {
    assert_eq!(pack_nibbles(&[1, 2, 3, 5, 6]), vec![0x12, 0x35]);
    assert_eq!(pack_nibbles(&[0x1f, 0xf3]), vec![0xf3]);
    assert!(pack_nibbles(&[]).is_empty());
}

#[test]
fn transparent_pixels_flatten_white() {
    let rgba = [10, 20, 30, 255, 1, 2, 3, 0, 9, 9];
    assert_eq!(rgba_to_rgb_flat(&rgba), vec![10, 20, 30, 255, 255, 255]);
}

#[test]
fn listing_marks_rotation_and_urls() {
    let lib = vec![meta("a", 1), meta("b", 1)];
    let items = list_items(&lib, &ids(&["b"]));
    assert_eq!(items.len(), 2);
    assert!(!items[0].in_rotate);
    assert!(items[1].in_rotate);
    assert_eq!(items[0].thumb_url, "/api/pictures/a/thumb.jpg");
    assert_eq!(items[0].dither_url, "/api/pictures/a/dither.png");
    assert_eq!(items[1].original_url, "/api/pictures/b/original");
    assert_eq!(items[1].filename, "b.jpg");
}

#[test]
fn playlist_wraps() {
    let rotate = ids(&["x", "y", "z"]);
    assert_eq!(current_id(&rotate, 0), Some("x".to_string()));
    assert_eq!(current_id(&rotate, 4), Some("y".to_string()));
    assert_eq!(current_id(&[], 3), None);
    assert_eq!(advance_index(3, 2), 0);
    assert_eq!(advance_index(3, 7), 2);
    assert_eq!(advance_index(0, 7), 7);
    assert_eq!(advance_index(3, usize::MAX), 1);
    let mut i = 1;
    for _ in 0..3 {
        i = advance_index(3, i);
    }
    assert_eq!(i, 1);
}

#[test]
fn delete_removes_or_reports_missing() {
    let mut lib = vec![meta("a", 1), meta("b", 1), meta("a", 2)];
    assert_eq!(remove_picture(&mut lib, "a"), Ok(()));
    assert_eq!(lib, vec![meta("b", 1)]);
    assert_eq!(remove_picture(&mut lib, "zz"), Err("picture `zz` not found".to_string()));
    assert_eq!(lib.len(), 1);
}

#[test]
fn find_and_validate_ids() {
    let lib = vec![meta("a", 1), meta("b", 1)];
    assert_eq!(find_picture(&lib, "b"), Ok(1));
    assert_eq!(find_picture(&lib, "c"), Err("picture `c` not found".to_string()));
    assert_eq!(validate_rotate_ids(&lib, &ids(&["a", "b"])), Ok(()));
    assert_eq!(
        validate_rotate_ids(&lib, &ids(&["a", "q", "r"])),
        Err("unknown picture id `q`".to_string())
    );
}

#[test]
fn mark_dithered_updates_first_match() {
    let mut lib = vec![meta("a", 1), meta("b", 1)];
    mark_dithered(&mut lib, "b");
    assert_eq!(lib[1].dither_version, DITHER_VERSION);
    assert_eq!(lib[0].dither_version, 1);
    assert!(!needs_redither(true, true, DITHER_VERSION));
    assert!(needs_redither(true, false, DITHER_VERSION));
    assert!(needs_redither(true, true, 1));
}

#[test]
fn extension_by_name_then_magic() {
    assert_eq!(extension_for("IMG.PNG", &[]), "png");
    assert_eq!(extension_for("a.webp", &[]), "webp");
    assert_eq!(extension_for("a.JPEG", &[]), "jpg");
    assert_eq!(extension_for("upload", b"\x89PNG\r\n\x1a\nrest"), "png");
    assert_eq!(extension_for("upload", &[0xff, 0xd8, 0xff]), "jpg");
    assert_eq!(extension_for("upload", b"RIFF1234WEBPVP8 "), "webp");
    assert_eq!(extension_for("upload", b"GIF89a"), "jpg");
}

#[test]
fn file_name_rules() {
    assert!(is_picture_file("abc.jpg", "abc"));
    assert!(!is_picture_file("abc", "abc"));
    assert!(!is_picture_file(".abc.jpg", ".abc"));
    assert!(is_original_file("abc.png", "abc"));
    assert!(!is_original_file("abc-thumb.jpg", "abc"));
    assert!(!is_original_file("abc.", "abc"));
}
