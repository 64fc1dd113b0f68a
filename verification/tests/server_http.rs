use family_frame::server::config::FrameMode;
use family_frame::server::http::{
    check_upload, error_status, forget_picture, frame_name_checksum, is_button_wake,
    is_upload_field, offered_checksum, offered_etag, original_content_type, picture_mode_check,
    poll_status, rotation_in_library, static_asset, StaticAsset,
};
use family_frame::server::pictures::{list_items, PictureMeta};

fn ids(v: &[&str]) -> Vec<String> {
    v.iter().map(|s| s.to_string()).collect()
}

#[test]
fn checksum_query_wins_over_header() {
    assert_eq!(offered_checksum(Some("q"), Some("h")), Some("q"));
    assert_eq!(offered_checksum(None, Some("h")), Some("h"));
    assert_eq!(offered_checksum(None, None), None);
}

#[test]
fn pico_post_offer_and_status() {
    assert!(is_button_wake("Button"));
    assert!(!is_button_wake("timer"));
    assert_eq!(offered_etag(Some("  \"abc\" ")), "abc");
    assert_eq!(offered_etag(None), "");
    assert_eq!(poll_status(true), 204);
    assert_eq!(poll_status(false), 200);
}

#[test]
fn static_assets_and_types() {
    assert_eq!(
        static_asset("dashboard.css"),
        Some((StaticAsset::DashboardCss, "text/css; charset=utf-8"))
    );
    assert_eq!(
        static_asset("fonts/TRMNL16-Bold.ttf"),
        Some((StaticAsset::Trmnl16BoldTtf, "font/ttf"))
    );
    assert_eq!(static_asset("../secret"), None);
    assert_eq!(original_content_type(Some("png")), "image/png");
    assert_eq!(original_content_type(Some("webp")), "image/webp");
    assert_eq!(original_content_type(Some("PNG")), "image/jpeg");
    assert_eq!(original_content_type(None), "image/jpeg");
}

#[test]
fn debug_frame_names_and_errors() {
    assert_eq!(frame_name_checksum("abc.png"), "abc");
    assert_eq!(frame_name_checksum("abc"), "abc");
    assert_eq!(frame_name_checksum(".png"), "");
    assert_eq!(error_status("picture `x` not found"), 404);
    assert_eq!(error_status("disk full"), 500);
}

#[test]
fn uploads() {
    assert!(is_upload_field("file"));
    assert!(is_upload_field(""));
    assert!(!is_upload_field("caption"));
    assert_eq!(check_upload(None), Err("missing file field".to_string()));
    assert_eq!(check_upload(Some(&[])), Err("empty upload".to_string()));
    assert_eq!(check_upload(Some(&[1, 2])), Ok(()));
}

#[test]
fn picture_mode_needs_photos() {
    assert_eq!(
        picture_mode_check(FrameMode::Picture, &[]),
        Err("picture mode needs at least one photo in the rotation".to_string())
    );
    assert_eq!(picture_mode_check(FrameMode::Picture, &ids(&["a"])), Ok(()));
    assert_eq!(picture_mode_check(FrameMode::Dashboard, &[]), Ok(()));
}

#[test]
fn rotation_shows_only_library_photos() {
    let lib = vec![PictureMeta {
        id: "b".into(),
        filename: "b.jpg".into(),
        uploaded_at: String::new(),
        dither_version: 0,
    }];
    let items = list_items(&lib, &[]);
    assert_eq!(rotation_in_library(&ids(&["a", "b", "c", "b"]), &items), ids(&["b", "b"]));
}

#[test]
fn deleting_last_rotated_photo_falls_back_to_dashboard() {
    let mut rotate = ids(&["a", "b", "a"]);
    let mut mode = FrameMode::Picture;
    assert_eq!(forget_picture(&mut rotate, &mut mode, "a"), (true, false));
    assert_eq!(rotate, ids(&["b"]));
    assert_eq!(mode, FrameMode::Picture);
    assert_eq!(forget_picture(&mut rotate, &mut mode, "zz"), (false, false));
    assert_eq!(forget_picture(&mut rotate, &mut mode, "b"), (true, true));
    assert_eq!(mode, FrameMode::Dashboard);
    let mut empty: Vec<String> = Vec::new();
    let mut dash = FrameMode::Dashboard;
    assert_eq!(forget_picture(&mut empty, &mut dash, "x"), (false, false));
}
