use clipstash::error::ClipError;
use clipstash::field::{Content, Expires, Title};
use clipstash::password::Password;
use clipstash::shortcode::ShortCode;
use clipstash::text::blank;
use std::str::FromStr;

#[test]
fn content_keeps_text_as_given() {
    let c = Content::new("  hello world ").unwrap();
    assert_eq!(c.as_str(), "  hello world ");
    assert_eq!(c.into_inner(), "  hello world ".to_string());
}

#[test]
fn content_rejects_blank_text() {
    assert_eq!(Content::new(" ").unwrap_err(), ClipError::InvalidContent);
    assert_eq!(Content::new("").unwrap_err(), ClipError::InvalidContent);
    assert_eq!(Content::new("\t\r\n\u{3000}").unwrap_err(), ClipError::InvalidContent);
}

#[test]
fn content_accepts_any_visible_character() {
    assert!(Content::new("x").is_ok());
    assert!(Content::new(" \u{a0}.").is_ok());
}

#[test]
fn blank_follows_unicode_whitespace() {
    assert!(blank(""));
    assert!(blank(" \u{2028}\u{85}"));
    assert!(!blank("a "));
    assert!(!blank("\u{200b}"));
}

#[test]
fn title_normalizes_empty_to_none() {
    assert_eq!(Title::new(None).into_inner(), None);
    assert_eq!(Title::new(Some(String::new())).into_inner(), None);
    assert_eq!(Title::new(Some(" ".to_string())).into_inner(), Some(" ".to_string()));
    assert_eq!(Title::new(Some("notes".to_string())).into_inner(), Some("notes".to_string()));
}

#[test]
fn password_set_for_non_blank_text() {
    let p = Password::new(Some("secret".to_string())).unwrap();
    assert_eq!(p.as_str(), "secret");
    assert!(p.clone().has_password());
    assert_eq!(p.into_inner(), Some("secret".to_string()));
}

#[test]
fn password_blank_or_absent_means_none() {
    let blank_one = Password::new(Some("   ".to_string())).unwrap();
    assert!(!blank_one.clone().has_password());
    assert_eq!(blank_one.as_str(), "");
    assert_eq!(Password::new(Some(String::new())).unwrap().into_inner(), None);
    assert_eq!(Password::new(None).unwrap().into_inner(), None);
    assert_eq!(Password::default().into_inner(), None);
    assert_eq!(Password::none().into_inner(), None);
}

#[test]
fn password_from_str() {
    assert_eq!(Password::from_str("pw").unwrap().into_inner(), Some("pw".to_string()));
    assert_eq!(Password::from_str(" ").unwrap().into_inner(), None);
}

#[test]
fn password_admits_only_matching_attempt() {
    let p = Password::new(Some("secret".to_string())).unwrap();
    assert!(p.admits(&Password::new(Some("secret".to_string())).unwrap()));
    assert!(!p.admits(&Password::new(Some("Secret".to_string())).unwrap()));
    assert!(!p.admits(&Password::none()));
    assert!(Password::none().admits(&Password::none()));
    assert!(Password::none().admits(&p));
}

#[test]
fn expires_parses_seconds() {
    assert_eq!(Expires::parse("").unwrap().into_inner(), None);
    assert_eq!(Expires::parse("0").unwrap().into_inner(), Some(0));
    assert_eq!(Expires::parse("1700000000").unwrap().into_inner(), Some(1700000000));
    assert_eq!(Expires::parse("9223372036854775807").unwrap().into_inner(), Some(i64::MAX));
    assert_eq!(Expires::new(Some(5)).into_inner(), Some(5));
    assert_eq!(Expires::new(None).into_inner(), None);
}

#[test]
fn expires_rejects_bad_text() {
    assert_eq!(Expires::parse("12a").unwrap_err(), ClipError::InvalidExpiration);
    assert_eq!(Expires::parse("-5").unwrap_err(), ClipError::InvalidExpiration);
    assert_eq!(Expires::parse(" 1").unwrap_err(), ClipError::InvalidExpiration);
    assert_eq!(Expires::parse("9223372036854775808").unwrap_err(), ClipError::InvalidExpiration);
    assert_eq!(Expires::parse("99999999999999999999999").unwrap_err(), ClipError::InvalidExpiration);
}

#[test]
fn shortcode_parse_accepts_non_empty() {
    assert_eq!(ShortCode::new("").unwrap_err(), ClipError::InvalidShortCode);
    let c = ShortCode::new("abc").unwrap();
    assert_eq!(c.as_str(), "abc");
    assert!(c.same(&ShortCode::new("abc").unwrap()));
    assert!(!c.same(&ShortCode::new("abd").unwrap()));
}

#[test]
fn shortcode_generate_maps_draws_to_alphabet() {
    let c = ShortCode::generate(&vec![0, 10, 36, 61, 62, 255]);
    assert_eq!(c.into_inner(), "0aAZ07".to_string());
}
