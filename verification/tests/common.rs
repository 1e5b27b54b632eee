use untroche::common::error::char_count;
use untroche::common::pagination::Pagination;
use untroche::common::profile::profile_sections;
use untroche::common::req_type::ReqType;
use untroche::common::state::{check_maintenance, StateHandle, MAINTENANCE_MESSAGE};
use untroche::common::tera_filter::{html, timestamp};
use untroche::ondyst::util::state::State;
use untroche::ondyst::util::tag_parse::Ondyst;

#[test]
fn page_number() {
    let p: Pagination<20, 100> = Pagination { offset: 45, limit: 20 };
    assert_eq!(p.page(), 2);
    let z: Pagination<20, 100> = Pagination { offset: 45, limit: 0 };
    assert_eq!(z.page(), 0);
}

#[test]
fn paging_from_the_query() {
    let p = Pagination::<20, 100>::from_query(None, None);
    assert_eq!((p.offset, p.limit), (0, 20));
    let q = Pagination::<20, 100>::from_query(Some(7), Some(500));
    assert_eq!((q.offset, q.limit), (7, 100));
    let r = Pagination::<20, 100>::from_query(Some(3), Some(30));
    assert_eq!((r.offset, r.limit), (3, 30));
}

#[test]
fn request_destinations() {
    assert_eq!(ReqType::from_dest(Some("document")), ReqType::Document);
    assert_eq!(ReqType::from_dest(Some("iframe")), ReqType::Iframe);
    assert_eq!(ReqType::from_dest(Some("image")), ReqType::Image);
    assert_eq!(ReqType::from_dest(Some("script")), ReqType::Script);
    assert_eq!(ReqType::from_dest(Some("style")), ReqType::Style);
    assert_eq!(ReqType::from_dest(Some("video")), ReqType::Empty);
    assert_eq!(ReqType::from_dest(None), ReqType::Empty);
}

#[test]
fn maintenance_refuses_requests() {
    let e = check_maintenance(&State::Maintenance).unwrap_err();
    assert_eq!(e.status, 503);
    assert_eq!(e.message, MAINTENANCE_MESSAGE);
    assert!(check_maintenance(&State::Active).is_ok());
}

#[test]
fn shared_state_is_shared() {
    let h = StateHandle::new(State::Prepare);
    let other = h.clone();
    assert_eq!(other.get(), State::Prepare);
    h.set(State::Active);
    assert_eq!(other.get(), State::Active);
}

#[test]
fn profile_is_split_into_sections() {
    let s = profile_sections("intro\n# A\nbody a\nmore\n# B");
    assert_eq!(s.len(), 3);
    assert_eq!(s[0].title, None);
    assert_eq!(s[0].content, "intro");
    assert_eq!(s[1].title.as_deref(), Some("A"));
    assert_eq!(s[1].content, "body a\nmore");
    assert_eq!(s[2].title.as_deref(), Some("B"));
    assert_eq!(s[2].content, "");
    let t = profile_sections("# Top\ntext");
    assert_eq!(t.len(), 1);
    assert_eq!(t[0].title.as_deref(), Some("Top"));
    assert_eq!(t[0].content, "text");
}

#[test]
fn filters() {
    assert_eq!(timestamp(9 * 3600, Some(0)).unwrap(), "1970-01-01 09:00:00");
    assert_eq!(timestamp(0, None).unwrap_err(), "timestamp filter can only be applied to integers");
    assert_eq!(timestamp(0, Some(i64::MAX)).unwrap_err(), "invalid timestamp value");
    assert_eq!(html(&Ondyst, Some("a<b"), false).unwrap(), "a&lt;b");
    assert_eq!(html(&Ondyst, None, false).unwrap_err(), "html filter can only be applied to strings");
}

#[test]
fn characters_are_counted() {
    assert_eq!(char_count("日本語"), 3);
    assert_eq!(char_count(""), 0);
}
