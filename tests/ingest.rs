use promptvault::assets::{
    asset_paths, check_relative_path, choose_extension, fresh_asset_name, normalize_fs_path,
    normalize_trimmed_path, render_preview, resolve_image_extension, thumbnail_file_name, wants_raster_thumbnail,
};
use promptvault::codec::{encode_image_bytes, serialize_tags, tags_or_empty_list};
use promptvault::ingest::{
    decode_data_url, from_hex, image_expected, percent_decode, require_image, resolve_image_data,
    InputError,
};

#[test]
fn percent_decodes_svg_data_url() {
    let r = resolve_image_data(None, Some("data:image/svg+xml,%3Csvg/%3E"));
    assert_eq!(r, Some(b"<svg/>".to_vec()));
}

#[test]
fn percent_decode_plus_and_bad_escapes() {
    assert_eq!(percent_decode(b"a+b%41%zz%4"), b"a bA%zz%4".to_vec());
    assert_eq!(percent_decode(b"%2f%2F"), b"//".to_vec());
    assert_eq!(percent_decode(b""), Vec::<u8>::new());
}

#[test]
fn hex_digits() {
    assert_eq!(from_hex(b'0'), Some(0));
    assert_eq!(from_hex(b'9'), Some(9));
    assert_eq!(from_hex(b'a'), Some(10));
    assert_eq!(from_hex(b'F'), Some(15));
    assert_eq!(from_hex(b'g'), None);
}

#[test]
fn raw_bytes_win_over_data_url() {
    let r = resolve_image_data(Some(vec![1, 2, 3]), Some("data:image/png;base64,AAAA"));
    assert_eq!(r, Some(vec![1, 2, 3]));
}

#[test]
fn base64_data_url_is_decoded() {
    assert_eq!(resolve_image_data(None, Some("data:image/png;base64,aGk=")), Some(b"hi".to_vec()));
    assert_eq!(decode_data_url(b"aGk="), Some(b"hi".to_vec()));
}

#[test]
fn invalid_base64_yields_nothing() {
    assert_eq!(resolve_image_data(None, Some("data:image/png;base64,@@@")), None);
    assert_eq!(resolve_image_data(None, Some("not base64!")), None);
}

#[test]
fn empty_percent_payload_yields_nothing() {
    assert_eq!(resolve_image_data(None, Some("data:image/svg+xml,")), None);
    assert_eq!(resolve_image_data(None, None), None);
    assert_eq!(resolve_image_data(Some(vec![]), None), None);
    assert_eq!(resolve_image_data(None, Some("data:image/png;base64,")), None);
    assert_eq!(resolve_image_data(None, Some("")), None);
    assert_eq!(resolve_image_data(Some(vec![]), Some("data:image/png;base64,aGk=")), Some(b"hi".to_vec()));
}

#[test]
fn expectation_signals() {
    assert!(!image_expected(None, &None, None, None));
    assert!(!image_expected(Some(false), &None, None, None));
    assert!(image_expected(None, &None, Some(""), None));
    assert!(image_expected(None, &None, None, Some("")));
    assert!(image_expected(Some(true), &None, None, None));
    assert!(image_expected(None, &Some(vec![]), None, None));
    assert!(image_expected(None, &None, Some("a.png"), None));
    assert!(image_expected(None, &None, None, Some("data:,")));
}

#[test]
fn missing_expected_image_is_an_error() {
    assert_eq!(require_image(true, None), Err(InputError::NoImageData));
    assert_eq!(require_image(false, None), Ok(None));
    assert_eq!(require_image(true, Some(vec![7])), Ok(Some(vec![7])));
    assert_eq!(require_image(true, Some(vec![])), Err(InputError::NoImageData));
    assert_eq!(require_image(false, Some(vec![])), Ok(None));
    assert_eq!(
        InputError::NoImageData.message(),
        "no image data was received; select the file again and retry"
    );
}

#[test]
fn extension_from_filename_first() {
    assert_eq!(choose_extension(Some("photo.final.JPG"), Some("png"), None), "JPG");
    assert_eq!(choose_extension(Some("noext"), None, None), "png");
    assert_eq!(resolve_image_extension(Some("noext"), None, Some("data:image/webp;base64,xx")), "webp");
    assert_eq!(choose_extension(Some("trailing."), Some("webp"), None), "webp");
}

#[test]
fn extension_from_mime_table() {
    assert_eq!(choose_extension(None, None, Some("data:image/jpeg;base64,xx")), "jpg");
    assert_eq!(choose_extension(None, None, Some("data:image/jpg;base64,xx")), "jpg");
    assert_eq!(choose_extension(None, None, Some("data:image/webp;base64,xx")), "webp");
    assert_eq!(choose_extension(None, None, Some("data:image/gif;base64,xx")), "gif");
    assert_eq!(choose_extension(None, None, Some("data:image/bmp;base64,xx")), "bmp");
    assert_eq!(choose_extension(None, None, Some("data:image/tiff;base64,xx")), "tiff");
    assert_eq!(choose_extension(None, None, Some("data:image/svg+xml,%3Csvg/%3E")), "svg");
    assert_eq!(choose_extension(None, None, Some("data:text/plain;base64,xx")), "png");
    assert_eq!(choose_extension(None, None, Some("aGk=")), "png");
    assert_eq!(choose_extension(None, None, None), "png");
}

#[test]
fn extension_from_path() {
    assert_eq!(resolve_image_extension(None, Some("/tmp/shots/cat.webp"), None), "webp");
    assert_eq!(resolve_image_extension(None, Some("/tmp/shots/cat"), Some("data:image/gif;base64,")), "gif");
    assert_eq!(resolve_image_extension(Some("a.bmp"), Some("/x/y.png"), None), "bmp");
}

#[test]
fn file_urls_are_normalized() {
    assert_eq!(normalize_fs_path("  file:///C:/Users/me/a.png \n"), Some("C:\\Users\\me\\a.png".to_string()));
    assert_eq!(normalize_trimmed_path("file://C:/x/y.png"), Some("C:\\x\\y.png".to_string()));
    assert_eq!(normalize_trimmed_path("/home/me/a.png"), None);
    assert_eq!(normalize_fs_path(" /home/me/a.png "), None);
}

#[test]
fn path_traversal_is_refused() {
    assert_eq!(check_relative_path("../../etc/passwd"), Err(InputError::InvalidPath));
    assert_eq!(check_relative_path("/etc/passwd"), Err(InputError::InvalidPath));
    assert_eq!(check_relative_path("C:\\Windows\\win.ini"), Err(InputError::InvalidPath));
    assert_eq!(check_relative_path("images/../../secret"), Err(InputError::InvalidPath));
    assert_eq!(check_relative_path("images/.."), Err(InputError::InvalidPath));
    assert_eq!(check_relative_path("images/2024-05/a.png"), Ok(()));
    assert_eq!(check_relative_path("thumbnails/a..b_thumb.png"), Ok(()));
    assert_eq!(InputError::InvalidPath.message(), "invalid path");
}

#[test]
fn svg_preview_is_the_original() {
    let p = asset_paths("abc", "2024-05", "svg", true);
    assert_eq!(p.image_path, "images/2024-05/abc.svg");
    assert_eq!(p.thumbnail_path, p.image_path);
    let q = asset_paths("abc", "2024-05", "SVG", false);
    assert_eq!(q.thumbnail_path, q.image_path);
    assert!(!wants_raster_thumbnail("Svg"));
    assert!(wants_raster_thumbnail("png"));
}

#[test]
fn raster_preview_paths() {
    let p = asset_paths("abc", "2024-05", "png", true);
    assert_eq!(p.image_path, "images/2024-05/abc.png");
    assert_eq!(p.thumbnail_path, "thumbnails/abc_thumb.png");
    let q = asset_paths("abc", "2024-05", "png", false);
    assert_eq!(q.thumbnail_path, "images/2024-05/abc.png");
    assert_eq!(thumbnail_file_name("abc", "jpg"), "abc_thumb.jpg");
}

#[test]
fn fresh_names_have_their_shapes() {
    let a = fresh_asset_name();
    let b = fresh_asset_name();
    assert_eq!(a.id.len(), 36);
    assert_ne!(a.id, b.id);
    assert_eq!(a.month_dir.len(), 7);
    assert_eq!(&a.month_dir[4..5], "-");
    assert!(a.id.chars().all(|c| c.is_ascii_digit() || ('a'..='f').contains(&c) || c == '-'));
    assert!(a.month_dir.chars().all(|c| c.is_ascii_digit() || c == '-'));
}

#[test]
fn image_bytes_to_base64() {
    assert_eq!(encode_image_bytes(b"hi"), "aGk=");
    assert_eq!(encode_image_bytes(b""), "");
}

#[test]
fn tags_serialize_as_json() {
    assert_eq!(serialize_tags(&Some(vec!["cat".to_string(), "dog \"x\"".to_string()])), "[\"cat\",\"dog \\\"x\\\"\"]");
    assert_eq!(serialize_tags(&None), "[]");
    assert_eq!(serialize_tags(&Some(vec![])), "[]");
    assert_eq!(tags_or_empty_list(None), "[]");
    assert_eq!(tags_or_empty_list(Some("[\"a\"]".to_string())), "[\"a\"]");
}

fn png_bytes(w: u32, h: u32) -> Vec<u8> {
    let img = image::DynamicImage::ImageRgb8(image::RgbImage::new(w, h));
    let mut out = std::io::Cursor::new(Vec::new());
    img.write_to(&mut out, image::ImageFormat::Png).unwrap();
    out.into_inner()
}

#[test]
fn raster_preview_fits_the_bound() {
    let preview = render_preview("png", &png_bytes(600, 300)).unwrap();
    assert_eq!((preview.width, preview.height), (300, 150));
    assert_eq!((preview.image.width(), preview.image.height()), (300, 150));
    let tall = render_preview("png", &png_bytes(10, 900)).unwrap();
    assert!(tall.width <= 300 && tall.height == 300);
    let small = render_preview("PNG", &png_bytes(2, 2)).unwrap();
    assert!(small.width <= 300 && small.height <= 300);
}

#[test]
fn no_raster_preview_for_svg_or_garbage() {
    assert!(render_preview("svg", &png_bytes(4, 4)).is_none());
    assert!(render_preview("png", b"<svg/>").is_none());
}
