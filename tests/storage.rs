use clipstash::action;
use clipstash::error::{DataError, ServiceError};
use clipstash::field::{Content, Expires, Title};
use clipstash::model::{ApiKey, GetClip, NewClip, UpdateClip};
use clipstash::password::Password;
use clipstash::shortcode::ShortCode;
use clipstash::store::{self, key_count_is_valid, revocation_status, Database, RevocationStatus};

fn code(s: &str) -> ShortCode {
    ShortCode::new(s).unwrap()
}

fn request(shortcode: &str, content: &str, password: Option<&str>, expires: Option<i64>) -> NewClip {
    NewClip {
        clip_id: format!("id-{}", shortcode),
        shortcode: code(shortcode),
        content: Content::new(content).unwrap(),
        title: Title::new(Some("a title".to_string())),
        posted: 1_000,
        expires: Expires::new(expires),
        password: Password::new(password.map(|p| p.to_string())).unwrap(),
    }
}

fn lookup(shortcode: &str, password: Option<&str>) -> GetClip {
    GetClip {
        shortcode: code(shortcode),
        password: Password::new(password.map(|p| p.to_string())).unwrap(),
    }
}

#[test]
fn new_clip_starts_with_no_hits() {
    let mut db = Database::new();
    let c = store::new_clip(request("abc", "hello", None, None), &mut db).unwrap();
    assert_eq!(c.hits, 0);
    assert_eq!(c.shortcode.as_str(), "abc");
    assert_eq!(c.clip_id, "id-abc".to_string());
    assert_eq!(c.content.as_str(), "hello");
    assert_eq!(c.posted, 1_000);
    let again = store::get_clip(&code("abc"), &db).unwrap();
    assert_eq!(again.content.as_str(), "hello");
}

#[test]
fn new_clip_refuses_taken_shortcode() {
    let mut db = Database::new();
    store::new_clip(request("abc", "first", None, None), &mut db).unwrap();
    let e = store::new_clip(request("abc", "second", None, None), &mut db).unwrap_err();
    assert_eq!(e, DataError::Duplicate);
    assert_eq!(store::get_clip(&code("abc"), &db).unwrap().content.as_str(), "first");
    let e = action::new_clip(request("abc", "third", None, None), &mut db).unwrap_err();
    assert_eq!(e, ServiceError::Data);
}

#[test]
fn get_missing_clip_is_not_found() {
    let db = Database::new();
    assert_eq!(store::get_clip(&code("nope"), &db).unwrap_err(), DataError::NotFound);
}

#[test]
fn update_changes_content_only() {
    let mut db = Database::new();
    store::new_clip(request("abc", "old text", None, None), &mut db).unwrap();
    store::increase_hit_count(&code("abc"), 4, &mut db).unwrap();
    let req = UpdateClip {
        shortcode: code("abc"),
        content: Content::new("new text").unwrap(),
        title: Title::new(Some("new title".to_string())),
        expires: Expires::new(Some(50_000)),
        password: Password::none(),
    };
    let c = store::update_clip(req, &mut db).unwrap();
    assert_eq!(c.content.as_str(), "new text");
    assert_eq!(c.title.clone().into_inner(), Some("new title".to_string()));
    assert_eq!(c.expires.into_inner(), Some(50_000));
    assert_eq!(c.shortcode.as_str(), "abc");
    assert_eq!(c.clip_id, "id-abc".to_string());
    assert_eq!(c.posted, 1_000);
    assert_eq!(c.hits, 4);
}

#[test]
fn update_of_missing_clip_is_not_found() {
    let mut db = Database::new();
    let req = UpdateClip {
        shortcode: code("zzz"),
        content: Content::new("text").unwrap(),
        title: Title::new(None),
        expires: Expires::new(None),
        password: Password::none(),
    };
    assert_eq!(store::update_clip(req, &mut db).unwrap_err(), DataError::NotFound);
}

#[test]
fn hit_increments_add_up() {
    let mut db = Database::new();
    store::new_clip(request("abc", "hello", None, None), &mut db).unwrap();
    store::new_clip(request("other", "hello", None, None), &mut db).unwrap();
    for n in [3u32, 0, 7, 1, 9] {
        store::increase_hit_count(&code("abc"), n, &mut db).unwrap();
    }
    assert_eq!(store::get_clip(&code("abc"), &db).unwrap().hits, 20);
    assert_eq!(store::get_clip(&code("other"), &db).unwrap().hits, 0);
}

#[test]
fn hit_increment_of_missing_clip_is_no_op() {
    let mut db = Database::new();
    assert_eq!(store::increase_hit_count(&code("none"), 5, &mut db), Ok(()));
}

#[test]
fn api_key_lifecycle() {
    let mut db = Database::new();
    let key = ApiKey::new(vec![1, 2, 3]);
    assert_eq!(store::revoke_api_key(key.clone(), &mut db), Ok(RevocationStatus::NotFound));
    assert_eq!(store::api_key_is_valid(key.clone(), &db), Ok(false));
    let saved = store::save_api_key(key.clone(), &mut db).unwrap();
    assert_eq!(saved.into_inner(), vec![1, 2, 3]);
    assert_eq!(store::api_key_is_valid(key.clone(), &db), Ok(true));
    assert_eq!(store::api_key_is_valid(ApiKey::new(vec![1, 2]), &db), Ok(false));
    assert_eq!(store::save_api_key(key.clone(), &mut db).unwrap_err(), DataError::Duplicate);
    assert_eq!(store::revoke_api_key(key.clone(), &mut db), Ok(RevocationStatus::Revoked));
    assert_eq!(store::api_key_is_valid(key.clone(), &db), Ok(false));
    assert_eq!(store::revoke_api_key(key, &mut db), Ok(RevocationStatus::NotFound));
}

#[test]
fn api_key_actions() {
    let mut db = Database::new();
    let key = ApiKey::new(vec![9, 9]);
    assert!(action::generate_api_key(key.clone(), &mut db).is_ok());
    assert_eq!(action::generate_api_key(key.clone(), &mut db).unwrap_err(), ServiceError::Data);
    assert_eq!(action::api_key_is_valid(key.clone(), &db), Ok(true));
    assert_eq!(action::revoke_api_key(key.clone(), &mut db), Ok(RevocationStatus::Revoked));
    assert_eq!(action::api_key_is_valid(key, &db), Ok(false));
}

#[test]
fn row_counts_to_outcomes() {
    assert_eq!(revocation_status(0), RevocationStatus::NotFound);
    assert_eq!(revocation_status(1), RevocationStatus::Revoked);
    assert_eq!(revocation_status(3), RevocationStatus::Revoked);
    assert!(!key_count_is_valid(0));
    assert!(key_count_is_valid(2));
}

#[test]
fn password_round_trip() {
    let mut db = Database::new();
    action::new_clip(request("sec", "hidden", Some("secret"), None), &mut db).unwrap();
    let c = action::get_clip(lookup("sec", Some("secret")), 2_000, &mut db).unwrap();
    assert_eq!(c.content.as_str(), "hidden");
    assert_eq!(
        action::get_clip(lookup("sec", Some("wrong")), 2_000, &mut db).unwrap_err(),
        ServiceError::PermissionError
    );
    assert_eq!(
        action::get_clip(lookup("sec", None), 2_000, &mut db).unwrap_err(),
        ServiceError::PermissionError
    );
    assert_eq!(
        action::get_clip(lookup("missing", Some("secret")), 2_000, &mut db).unwrap_err(),
        ServiceError::NotFound
    );
    assert_eq!(store::get_clip(&code("sec"), &db).unwrap().hits, 1);
}

#[test]
fn reads_count_hits() {
    let mut db = Database::new();
    let draws = vec![12u8, 40, 3, 61, 7];
    let shortcode = ShortCode::generate(&draws);
    let s = shortcode.as_str().to_string();
    let req = NewClip {
        clip_id: "clip-1".to_string(),
        shortcode,
        content: Content::new("hello world").unwrap(),
        title: Title::new(None),
        posted: 10,
        expires: Expires::new(None),
        password: Password::none(),
    };
    let c = action::new_clip(req, &mut db).unwrap();
    assert_eq!(c.shortcode.as_str(), s.as_str());
    assert_eq!(c.hits, 0);
    let first = action::get_clip(lookup(&s, None), 20, &mut db).unwrap();
    assert_eq!(first.hits, 1);
    let second = action::get_clip(lookup(&s, None), 30, &mut db).unwrap();
    assert_eq!(second.hits, 2);
    assert_eq!(second.content.as_str(), "hello world");
}

#[test]
fn expired_clip_reads_as_missing() {
    let mut db = Database::new();
    action::new_clip(request("old", "stale", None, Some(500)), &mut db).unwrap();
    assert!(action::get_clip(lookup("old", None), 500, &mut db).is_ok());
    assert_eq!(action::get_clip(lookup("old", None), 501, &mut db).unwrap_err(), ServiceError::NotFound);
    assert_eq!(store::get_clip(&code("old"), &db).unwrap().hits, 1);
}

#[test]
fn expired_clip_with_password_asks_for_it_first() {
    let mut db = Database::new();
    action::new_clip(request("p", "x", Some("pw"), Some(5)), &mut db).unwrap();
    assert_eq!(action::get_clip(lookup("p", None), 10, &mut db).unwrap_err(), ServiceError::PermissionError);
    assert_eq!(action::get_clip(lookup("p", Some("pw")), 10, &mut db).unwrap_err(), ServiceError::NotFound);
}

#[test]
fn check_access_decides_on_a_clip() {
    let mut db = Database::new();
    let c = store::new_clip(request("a", "x", Some("pw"), Some(100)), &mut db).unwrap();
    let pw = Password::new(Some("pw".to_string())).unwrap();
    assert_eq!(action::check_access(&c, &pw, 100), Ok(()));
    assert_eq!(action::check_access(&c, &Password::none(), 100), Err(ServiceError::PermissionError));
    assert_eq!(action::check_access(&c, &pw, 101), Err(ServiceError::NotFound));
}

#[test]
fn storage_errors_map_to_service_errors() {
    assert_eq!(ServiceError::from_data(DataError::NotFound), ServiceError::NotFound);
    assert_eq!(ServiceError::from_data(DataError::Duplicate), ServiceError::Data);
    assert_eq!(ServiceError::from_data(DataError::Overflow), ServiceError::Data);
}
