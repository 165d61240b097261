use base64::Engine;
use oops_terminal::fonts::{
    absolute_font_path, check_absolute, check_font_extension, font_mime_type, font_path_candidate,
    font_path_from_decoded, font_request_path,
    is_font_extension, strip_windows_prefix, FontPathError,
};

#[test]
fn rejects_empty_or_relative_or_bad_extension() {
    assert!(absolute_font_path("").is_err());
    assert!(absolute_font_path("   ").is_err());
    assert!(absolute_font_path("relative/font.ttf").is_err());
    // The extension is checked on the path as resolved.
    assert!(check_font_extension(r"C:\Users\me\font.txt").is_err());
}

#[test]
fn font_path_errors_and_messages() {
    assert!(matches!(font_path_candidate(" \t"), Err(FontPathError::Empty)));
    assert_eq!(font_path_candidate("  /x/a.ttf ").ok().as_deref(), Some("/x/a.ttf"));
    assert_eq!(FontPathError::Empty.message(), "字体路径为空");
    assert_eq!(FontPathError::NotAbsolute.message(), "字体文件路径必须是绝对路径");
    assert_eq!(FontPathError::BadExtension.message(), "字体文件必须是 ttf/otf/woff/woff2 格式");
    assert_eq!(FontPathError::NotAFile.message(), "字体路径指向的不是文件");
}

#[test]
fn font_extensions() {
    assert!(is_font_extension(Some("ttf")));
    assert!(is_font_extension(Some("OTF")));
    assert!(is_font_extension(Some("WoFf2")));
    assert!(!is_font_extension(Some("txt")));
    assert!(!is_font_extension(Some("ttf ")));
    assert!(!is_font_extension(None));
}

#[test]
fn font_mime_types() {
    assert_eq!(font_mime_type("TTF"), "font/ttf");
    assert_eq!(font_mime_type("otf"), "font/otf");
    assert_eq!(font_mime_type("woff"), "font/woff");
    assert_eq!(font_mime_type("woff2"), "font/woff2");
    assert_eq!(font_mime_type(""), "application/octet-stream");
    assert_eq!(font_mime_type("png"), "application/octet-stream");
}

#[test]
fn windows_prefixes_are_stripped() {
    assert_eq!(strip_windows_prefix(r"\\?\C:\fonts\a.ttf"), r"C:\fonts\a.ttf");
    assert_eq!(strip_windows_prefix(r"\??\C:\fonts"), r"C:\fonts");
    assert_eq!(strip_windows_prefix(r"C:\fonts"), r"C:\fonts");
    assert_eq!(strip_windows_prefix(r"\\server\share"), r"\\server\share");
}

#[test]
fn font_request_uri_is_decoded() {
    let path = "C:\\字体\\Sarasa.ttf";
    let b64 = base64::engine::general_purpose::URL_SAFE_NO_PAD.encode(path.as_bytes());
    assert_ne!(b64, path);
    let uri = format!("font://localhost/{b64}");
    assert_eq!(font_request_path(&uri).as_deref(), Some(path));
    let uri2 = format!("http://font.localhost/{b64}");
    assert_eq!(font_request_path(&uri2).as_deref(), Some(path));
    assert_eq!(font_request_path("font://localhost/%%%"), None);
    assert_eq!(font_request_path("font://localhost"), Some(String::new()));
    let bad = base64::engine::general_purpose::URL_SAFE_NO_PAD.encode([0xffu8, 0xfe]);
    assert_eq!(font_request_path(&format!("font://localhost/{bad}")), None);
}

#[test]
fn decoded_bytes_must_be_utf8() {
    assert_eq!(font_path_from_decoded(Some(b"/a.ttf".to_vec())).as_deref(), Some("/a.ttf"));
    assert_eq!(font_path_from_decoded(Some(vec![0xc3])), None);
    assert_eq!(font_path_from_decoded(None), None);
}

#[test]
fn font_path_checks_in_order() {
    assert!(matches!(absolute_font_path(" \t "), Err(FontPathError::Empty)));
    assert!(matches!(absolute_font_path("fonts/a.ttf"), Err(FontPathError::NotAbsolute)));
    assert_eq!(absolute_font_path("  /fonts/Mono.WOFF2 ").ok().as_deref(), Some("/fonts/Mono.WOFF2"));
    assert!(matches!(check_font_extension("/fonts/a.txt"), Err(FontPathError::BadExtension)));
    assert!(matches!(check_font_extension("/fonts/noext"), Err(FontPathError::BadExtension)));
    assert!(check_font_extension("/x/y.otf").is_ok());
    assert!(check_font_extension("/x/Y.WoFf").is_ok());
    assert!(check_absolute("/x").is_ok());
}
