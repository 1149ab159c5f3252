use spotify_rust::auth::{auth_client, callback_outcome, clean_env_value, password_fallback, CallbackOutcome};
use spotify_rust::cache::{cache_action, cover_file_name, cover_pixels, CacheAction};
use spotify_rust::config::{default_view, is_blank_query, lyric_seek_target, persists_view, restores_view, toggle_lyrics_view};
use spotify_rust::lyrics::{lyrics_request_url, select_lyrics};

fn code(url: &str) -> Option<String> {
    match callback_outcome(url) {
        CallbackOutcome::Code(c) => Some(c),
        _ => None,
    }
}

#[test]
fn cover_names_are_md5_hex() {
    assert_eq!(cover_file_name("abc"), "900150983cd24fb0d6963f7d28e17f72.jpg");
    assert_eq!(cover_file_name(""), "d41d8cd98f00b204e9800998ecf8427e.jpg");
}

#[test]
fn cache_actions() {
    assert!(matches!(cache_action(Some("/c/x.jpg".to_string()), true), CacheAction::UseCached(p) if p == "/c/x.jpg"));
    assert!(matches!(cache_action(Some("/c/x.jpg".to_string()), false), CacheAction::Refetch));
    assert!(matches!(cache_action(None, false), CacheAction::Fetch));
}

#[test]
fn client_id_choice() {
    let mock = auth_client(String::new());
    assert!(mock.is_mock);
    assert_eq!(mock.client_id, "mock_client_id");
    let real = auth_client("abc123".to_string());
    assert!(!real.is_mock);
    assert_eq!(real.client_id, "abc123");
}

#[test]
fn callback_requests() {
    assert_eq!(code("/callback?code=abc&state=x"), Some("abc".to_string()));
    assert_eq!(code("/callback?code=simulacao_oauth"), Some("simulacao_oauth".to_string()));
    assert_eq!(code("/callback?code="), Some(String::new()));
    assert_eq!(code("/callback?x=1code=a code=b"), Some("a ".to_string()));
    assert!(matches!(callback_outcome("/callback"), CallbackOutcome::NoCode));
    assert!(matches!(callback_outcome("/favicon.ico"), CallbackOutcome::NotFound));
    assert!(matches!(callback_outcome("/callbac"), CallbackOutcome::NotFound));
}

#[test]
fn env_values_are_cleaned() {
    assert_eq!(clean_env_value("  \"'bob'\"  "), "bob");
    assert_eq!(clean_env_value("'\"x\"'"), "\"x\"");
    assert_eq!(clean_env_value("\t plain \n"), "plain");
    assert_eq!(clean_env_value(""), "");
    assert!(password_fallback("u", "p"));
    assert!(!password_fallback("", "p"));
    assert!(!password_fallback("u", ""));
}

#[test]
fn view_rules() {
    assert_eq!(default_view(), "listen_now");
    assert!(restores_view("liked"));
    assert!(!restores_view("lyrics"));
    assert!(!restores_view(""));
    assert!(persists_view("search"));
    assert!(!persists_view("lyrics"));
    assert_eq!(toggle_lyrics_view("lyrics"), ("listen_now".to_string(), false));
    assert_eq!(toggle_lyrics_view("liked"), ("lyrics".to_string(), true));
    assert!(is_blank_query(" \t "));
    assert!(!is_blank_query(" a "));
    assert_eq!(lyric_seek_target(1500), Some(1500));
    assert_eq!(lyric_seek_target(-1), None);
}

#[test]
fn lyrics_preference() {
    assert_eq!(select_lyrics(Some("[00:01]a".to_string()), Some("a".to_string())), Some("[00:01]a".to_string()));
    assert_eq!(select_lyrics(None, Some("a".to_string())), Some("a".to_string()));
    assert_eq!(select_lyrics(None, None), None);
}

#[test]
fn lyrics_lookup_address() {
    assert_eq!(
        lyrics_request_url("Foo Fighters", "Everlong", Some("The Colour & the Shape"), Some("250.5")),
        Some("https://lrclib.net/api/get?artist_name=Foo+Fighters&track_name=Everlong&album_name=The+Colour+%26+the+Shape&duration=250.5".to_string())
    );
    assert_eq!(
        lyrics_request_url("Beyoncé", "Halo", None, None),
        Some("https://lrclib.net/api/get?artist_name=Beyonc%C3%A9&track_name=Halo".to_string())
    );
}

fn png_bytes() -> Vec<u8> {
    let mut img = image::RgbaImage::new(2, 1);
    img.put_pixel(0, 0, image::Rgba([255, 0, 0, 255]));
    img.put_pixel(1, 0, image::Rgba([0, 0, 255, 128]));
    let mut out = std::io::Cursor::new(Vec::new());
    img.write_to(&mut out, image::ImageFormat::Png).unwrap();
    out.into_inner()
}

#[test]
fn cover_pixels_decode() {
    let c = cover_pixels(Some(png_bytes())).unwrap();
    assert_eq!((c.width, c.height), (2, 1));
    assert_eq!(c.rgba, vec![255, 0, 0, 255, 0, 0, 255, 128]);
    assert!(cover_pixels(Some(b"not an image".to_vec())).is_none());
    assert!(cover_pixels(None).is_none());
}
