use untroche::common::query::query_text;
use untroche::portal::domain::entry::{check_login, new_mutes, new_password_hash, WRONG_LOGIN_MESSAGE};
use untroche::portal::domain::auth::{check_code, code_expiry};
use untroche::portal::domain::home::{settings_update, Settings};
use untroche::portal::domain::report::{reports_sql, Post};
use untroche::portal::domain::webhook::Content;
use untroche::portal::util::guard::{is_internal, PeerIp};

#[test]
fn content_addressed_to_users() {
    let c = Content { content: "hello".into(), username: Some("bot".into()), avatar_url: None };
    let w = c.target(vec![[1u8; 16], [2u8; 16]]);
    assert_eq!(w.target.len(), 2);
    assert_eq!(w.content.content, "hello");
    let q = w.webhook_query().unwrap();
    assert_eq!(query_text(&q), "SELECT webhook FROM user WHERE id IN (?,?) AND webhook IS NOT NULL");
    assert!(Content::default().target(vec![]).webhook_query().is_none());
}

#[test]
fn user_settings_update() {
    assert!(settings_update(&Settings { profile: None, webhook: None }, &[1, 2]).is_none());
    let q = settings_update(&Settings { profile: Some("p".into()), webhook: Some("w".into()) }, &[1, 2]).unwrap();
    assert_eq!(query_text(&q), "UPDATE user SET profile=?,webhook=? WHERE id=?");
    let r = settings_update(&Settings { profile: None, webhook: Some("w".into()) }, &[1]).unwrap();
    assert_eq!(query_text(&r), "UPDATE user SET webhook=? WHERE id=?");
}

#[test]
fn report_rules_and_record() {
    let ok = Post { app_name: "ondyst".into(), category: "bug".into(), title: "t".into(), body: "12345678".into() };
    assert!(ok.validate().is_ok());
    assert_eq!(ok.record(), ("ondyst bug".to_string(), "t12345678".to_string()));
    let short = Post { app_name: "a".into(), category: "b".into(), title: "c".into(), body: "1234567".into() };
    let e = short.validate().unwrap_err();
    assert_eq!(e.len(), 1);
    assert_eq!(e[0].message, "8文字以上4096文字以内で入力してください");
    let long = Post { app_name: "a".repeat(33), category: "b".into(), title: "c".into(), body: "x".repeat(4097) };
    let e = long.validate().unwrap_err();
    assert_eq!(e.len(), 2);
    assert_eq!(e[0].field, "app_name");
}

#[test]
fn one_time_codes() {
    assert_eq!(code_expiry(1000), 1300);
    assert!(check_code(Some(1300), 1299).is_ok());
    let e = check_code(Some(1300), 1300).unwrap_err();
    assert_eq!((e.status, e.message), (401, "認証コードが期限切れです"));
    let e = check_code(None, 0).unwrap_err();
    assert_eq!((e.status, e.message), (401, "認証コードが無効です"));
}

#[test]
fn internal_addresses() {
    assert!(is_internal(Some(PeerIp::V4([127, 0, 0, 1]))));
    assert!(is_internal(Some(PeerIp::V4([10, 1, 2, 3]))));
    assert!(is_internal(Some(PeerIp::V4([172, 16, 0, 1]))));
    assert!(is_internal(Some(PeerIp::V4([172, 31, 255, 1]))));
    assert!(!is_internal(Some(PeerIp::V4([172, 32, 0, 1]))));
    assert!(is_internal(Some(PeerIp::V4([192, 168, 1, 1]))));
    assert!(!is_internal(Some(PeerIp::V4([8, 8, 8, 8]))));
    assert!(is_internal(Some(PeerIp::V6([0, 0, 0, 0, 0, 0, 0, 1]))));
    assert!(!is_internal(Some(PeerIp::V6([0xfe80, 0, 0, 0, 0, 0, 0, 1]))));
    assert!(!is_internal(None));
}

#[test]
fn a_new_password_logs_in() {
    let hash = new_password_hash("hunter42", &[7; 16]).unwrap();
    assert!(hash.starts_with("$argon2id$"));
    assert!(check_login("hunter42", &hash).is_ok());
    match check_login("hunter43", &hash) {
        Err(Some(e)) => {
            assert_eq!(e.status, 401);
            assert_eq!(e.message, WRONG_LOGIN_MESSAGE);
        }
        _ => panic!("expected a refusal"),
    }
    assert!(matches!(check_login("hunter42", "not a hash"), Err(None)));
    assert!(!new_mutes().unwrap().is_empty());
}

#[test]
fn the_report_listing() {
    assert!(reports_sql(true).ends_with("WHERE checked=FALSE"));
    assert!(reports_sql(true).contains("FALSE AS checked"));
    assert!(reports_sql(false).ends_with("ON r.user=u.id"));
}
