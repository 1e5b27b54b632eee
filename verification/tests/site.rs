use untroche::common::state::IsMaintenance;
use untroche::erltod::utils::page::{ActorData as ErltodActor, Page as ErltodPage, PageType};
use untroche::ondyst::domain::actor::{actor_title, random_portrait};
use untroche::ondyst::domain::entry::{generate_random_unicode, Auth};
use untroche::ondyst::domain::location::{new_location_key, new_location_message};
use untroche::ondyst::util::page::{ActorData, Page};
use untroche::ondyst::util::state::State;
use untroche::ondyst::util::webhook::{target_list, Webhook};
use untroche::ondyst::util::{app, resource, Handout, BASE62};
use untroche::ondyst::utils::Page as OldPage;
use untroche::text::int_string;

#[test]
fn paths() {
    assert_eq!(app("/srv", ".env"), "/srv/.env");
    assert_eq!(resource("/srv", true, "template/*.html"), "/srv/resource/template/*.html");
    assert_eq!(resource("/srv", false, "x.json"), "/app/app/ondyst/x.json");
    assert_eq!(untroche::ondyst::utils::resource("/srv", "a"), "/srv/resource/a");
    assert_eq!(untroche::portal::util::resource("/p", false, "a"), "/app/app/portal/a");
    assert_eq!(untroche::portal::utils::app("/p", "b"), "/p/b");
}

#[test]
fn page_builders() {
    let p = Page::default();
    assert_eq!(p.title, "one day's' talk");
    let p = p.title("T").state(Some(State::Active)).actor_data(ActorData { id: 1, name: "n".into(), icon: "i".into() });
    assert_eq!(p.title, "T");
    assert_eq!(p.state, Some(State::Active));
    assert_eq!(p.actor_data.as_ref().map(|a| a.id), Some(1));
    let p = p.actor_data_opt(None);
    assert!(p.actor_data.is_none());
    let o = OldPage::default().title("x");
    assert_eq!(o.title, "x");
    let e = ErltodPage::default().actor_data(ErltodActor { name: "u".into() });
    assert!(matches!(e.page_type, PageType::Standard { user_data: Some(_) }));
    let m = e.min();
    assert!(matches!(m.page_type, PageType::Min));
    assert_eq!(m.title, "untroche.portal");
}

#[test]
fn webhook_builders() {
    let w = Webhook::new("c").username("u").avatar_url("a");
    assert_eq!(w.content, "c");
    assert_eq!(w.username.as_deref(), Some("u"));
    assert_eq!(w.avatar_url.as_deref(), Some("a"));
    assert_eq!(target_list(&[1, -2, 30]), "1,-2,30");
    assert_eq!(target_list(&[]), "");
}

#[test]
fn decimal_text() {
    assert_eq!(int_string(0), "0");
    assert_eq!(int_string(-42), "-42");
    assert_eq!(int_string(i64::MIN), "-9223372036854775808");
    assert_eq!(int_string(i64::MAX), "9223372036854775807");
}

#[test]
fn random_names() {
    for _ in 0..20 {
        let n = generate_random_unicode(0x30a0, 0x30ff, 2, 8);
        let count = n.chars().count();
        assert!((2..=8).contains(&count));
        assert!(n.chars().all(|c| (0x30a0..=0x30ff).contains(&(c as u32))));
    }
    let s = generate_random_unicode(0xD800, 0xDFFF, 1, 3);
    assert!(s.is_empty());
}

#[test]
fn sign_in_codes() {
    assert!(Auth { code: "x".repeat(40) }.validate().is_ok());
    assert!(Auth { code: "x".repeat(41) }.validate().is_err());
}

#[test]
fn places() {
    let k = new_location_key();
    assert_eq!(k.chars().count(), 8);
    assert!(k.chars().all(|c| BASE62.contains(&c)));
    assert_eq!(new_location_message("abc"), "新しい場所を追加しました<br><a href=\"location/abc\">移動する</a>");
}

#[test]
fn portraits_and_titles() {
    let p = random_portrait("a\r\nb\n").unwrap();
    assert!(p == "a" || p == "b");
    assert!(random_portrait("").is_none());
    assert_eq!(random_portrait("only").unwrap(), "only");
    assert_eq!(actor_title("名前"), "名前 - one day's' talk");
}

#[test]
fn stage_maintenance() {
    assert!(State::Maintenance.is_maintenance());
    assert!(!State::Closed.is_maintenance());
    let h = Handout { title: "t".into(), body: "b".into() };
    assert_eq!(h.clone().title, "t");
}

#[test]
fn a_last_line_keeps_its_carriage_return() {
    // `str::lines` drops a carriage return only together with the line feed after it.
    assert_eq!(random_portrait("b\r").unwrap(), "b\r");
    for _ in 0..20 {
        let p = random_portrait("a\r\nb\r").unwrap();
        assert!(p == "a" || p == "b\r");
    }
}
