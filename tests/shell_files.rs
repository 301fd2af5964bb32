use egg::internet_shortcut::{decode_shortcut_contents, parse_i32, parse_internet_shortcut};
use egg::sources::{executable_candidate, icon_cache_key};
use sha1::Digest;

const SAMPLE: &str = "[InternetShortcut]\r\nURL=\"https://example.com\"\r\nIconFile=C:\\i.ico\r\nIconIndex=-3\r\n; note\r\n[Other]\r\nURL=https://other\r\n";

#[test]
fn internet_shortcut_keys_are_read_from_their_section() {
    let info = parse_internet_shortcut(SAMPLE.as_bytes()).unwrap();
    assert_eq!(info.url, "https://example.com");
    assert_eq!(info.icon_path.as_deref(), Some("C:\\i.ico"));
    assert_eq!(info.icon_index, -3);
    assert_eq!(info.description, None);
}

#[test]
fn internet_shortcut_in_utf16_with_bom() {
    let mut bytes = vec![0xff, 0xfe];
    for unit in "[internetshortcut]\nComment = 'Docs'\nurl=https://docs\n".encode_utf16() {
        bytes.extend_from_slice(&unit.to_le_bytes());
    }
    let info = parse_internet_shortcut(&bytes).unwrap();
    assert_eq!(info.url, "https://docs");
    assert_eq!(info.description.as_deref(), Some("Docs"));
    assert_eq!(info.icon_index, 0);
}

#[test]
fn internet_shortcut_without_url_or_bytes() {
    assert!(parse_internet_shortcut(b"").is_none());
    assert!(parse_internet_shortcut(b"[InternetShortcut]\nIconIndex=2\n").is_none());
    assert!(parse_internet_shortcut(b"URL=https://outside\n").is_none());
}

#[test]
fn shortcut_text_decoding() {
    assert_eq!(decode_shortcut_contents("\u{feff}abc".as_bytes()), "abc");
    assert_eq!(decode_shortcut_contents(&[0xfe, 0xff, 0x00, 0x41, 0x00, 0x42]), "AB");
    assert_eq!(decode_shortcut_contents(&[0x61, 0xff]), "a\u{fffd}");
}

#[test]
fn signed_integers_are_parsed() {
    let p = |s: &str| parse_i32(&s.chars().collect::<Vec<char>>());
    assert_eq!(p("+12"), Some(12));
    assert_eq!(p("-2147483648"), Some(i32::MIN));
    assert_eq!(p("2147483647"), Some(i32::MAX));
    assert_eq!(p("2147483648"), None);
    assert_eq!(p("99999999999999999999"), None);
    assert_eq!(p(""), None);
    assert_eq!(p("-"), None);
    assert_eq!(p("1a"), None);
}

#[test]
fn icon_cache_key_hashes_lowercased_path_and_index() {
    let mut data = b"c:\\x\\app.exe".to_vec();
    data.extend_from_slice(&5i32.to_le_bytes());
    let expected: String = sha1::Sha1::digest(&data).iter().map(|b| format!("{:02x}", b)).collect();
    assert_eq!(icon_cache_key("C:\\X\\App.exe", 5), expected);
    assert_eq!(icon_cache_key("C:\\X\\App.exe", 5).len(), 40);
}

#[test]
fn executable_candidates_from_registry_values() {
    assert_eq!(executable_candidate(" \"C:\\App\\a.exe\" ").as_deref(), Some("C:\\App\\a.exe"));
    assert_eq!(executable_candidate("C:\\App\\a.exe,0").as_deref(), Some("C:\\App\\a.exe"));
    // Only quotes at the very ends are removed, as before the cut.
    assert_eq!(executable_candidate("\"C:\\App\\a.exe\",0").as_deref(), Some("C:\\App\\a.exe\""));
    assert_eq!(executable_candidate("C:\\App\\b.exe ; C:\\c.exe").as_deref(), Some("C:\\App\\b.exe"));
    assert_eq!(executable_candidate("   "), None);
    assert_eq!(executable_candidate(";x"), None);
}

#[test]
fn icon_pixels_become_base64_png_in_rgba_order() {
    let bgra = [1u8, 2, 3, 255, 10, 20, 30, 128];
    let mut png = Vec::new();
    image::ImageEncoder::write_image(
        image::codecs::png::PngEncoder::new(&mut png),
        &[3u8, 2, 1, 255, 30, 20, 10, 128],
        2,
        1,
        image::ColorType::Rgba8,
    )
    .unwrap();
    let expected = base64::Engine::encode(&base64::engine::general_purpose::STANDARD, &png);
    assert_eq!(egg::icons::encode_icon_pixels(&bgra, 2, 1), Some(expected));
}
