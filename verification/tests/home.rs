use untroche::common::query::query_text;
use untroche::ondyst::domain::home::{any_some, format_list, setting_update, Setting, SettingRefusal};
use untroche::ondyst::util::state::State;

fn empty_setting() -> Setting {
    Setting { name: None, comment: None, profile: None, icon_list: None, portrait_list: None, ho_title: None, ho_body: None }
}

#[test]
fn format_list_tidies_lines() {
    assert_eq!(format_list(" a \r\n\n\t b\n"), "a\nb");
    assert_eq!(format_list(""), "");
    assert_eq!(format_list("\n \n"), "");
    let once = format_list("  x\r\n y \n\n");
    assert_eq!(format_list(&once), once);
}

#[test]
fn an_empty_change_is_refused() {
    let e = any_some(&empty_setting()).unwrap_err();
    assert_eq!(e.field, "__all__");
    assert_eq!(e.message, "少なくとも1つの項目を変更してください");
    let errors = empty_setting().validate().unwrap_err();
    assert_eq!(errors.len(), 1);
    assert_eq!(errors[0].message, "少なくとも1つの項目を変更してください");
}

#[test]
fn length_rules_come_before_the_empty_rule() {
    let mut s = empty_setting();
    s.name = Some("x".repeat(17));
    s.ho_body = Some("y".repeat(53));
    let errors = s.validate().unwrap_err();
    assert_eq!(errors.len(), 2);
    assert_eq!(errors[0].field, "name");
    assert_eq!(errors[1].field, "ho_body");
    assert_eq!(errors[1].message, "52文字以内で入力してください");
}

#[test]
fn the_update_sets_the_given_columns() {
    let mut s = empty_setting();
    s.name = Some("n".into());
    s.icon_list = Some(" a \n\nb".into());
    let q = setting_update(State::Register, &s, 9).ok().unwrap();
    assert_eq!(query_text(&q), "UPDATE actor SET name=?,icon_list=? WHERE id=?");
}

#[test]
fn the_handout_is_locked_while_running() {
    let mut s = empty_setting();
    s.ho_title = Some("t".into());
    match setting_update(State::Active, &s, 1) {
        Err(SettingRefusal::Refused(e)) => {
            assert_eq!(e.status, 400);
            assert_eq!(e.message, "開催中はハンドアウトを変更できません");
        }
        _ => panic!("expected a refusal"),
    }
    assert!(setting_update(State::Register, &s, 1).is_ok());
}

#[test]
fn the_stage_decides_first() {
    let mut s = empty_setting();
    s.name = Some("n".into());
    match setting_update(State::Prepare, &s, 1) {
        Err(SettingRefusal::Refused(e)) => assert_eq!(e.status, 503),
        _ => panic!("expected a refusal"),
    }
    match setting_update(State::Closed, &s, 1) {
        Err(SettingRefusal::Refused(e)) => assert_eq!(e.status, 410),
        _ => panic!("expected a refusal"),
    }
    match setting_update(State::Active, &empty_setting(), 1) {
        Err(SettingRefusal::Invalid(v)) => assert_eq!(v.len(), 1),
        _ => panic!("expected invalid"),
    }
}

#[test]
fn the_sql_of_an_update_depends_only_on_the_fields_given() {
    let mut a = empty_setting();
    a.comment = Some("x'); DROP TABLE a; --".into());
    let mut b = empty_setting();
    b.comment = Some("y".into());
    let qa = setting_update(State::Active, &a, 1).ok().unwrap();
    let qb = setting_update(State::Active, &b, 2).ok().unwrap();
    assert_eq!(query_text(&qa), query_text(&qb));
    assert_eq!(query_text(&qa), "UPDATE actor SET comment=? WHERE id=?");
}

#[test]
fn every_setting_value_has_its_placeholder() {
    // Every field given, then the character: eight values.
    let s = Setting {
        name: Some("n".into()),
        comment: Some("c".into()),
        profile: Some("p".into()),
        icon_list: Some("i".into()),
        portrait_list: Some("q".into()),
        ho_title: Some("t".into()),
        ho_body: Some("b".into()),
    };
    let q = setting_update(State::Register, &s, 3).ok().unwrap();
    assert_eq!(query_text(&q).matches('?').count(), 8);
}
