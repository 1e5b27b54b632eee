use untroche::common::pagination::Pagination;
use untroche::common::query::query_text;
use untroche::ondyst::domain::chat::{
    anchor_actor_query, app_url, chat_query, link_refs, mention_message, mention_webhook, notify_targets, Post, Search,
    SearchLevel,
};

fn page(offset: usize, limit: usize) -> Pagination<20, 100> {
    Pagination { offset, limit }
}

#[test]
fn search_new_keeps_its_criteria() {
    let s = Search::new(Some(vec!["k".to_string()]), None, Some("w".to_string()), SearchLevel::Conversation, true);
    assert_eq!(s.location, Some(vec!["k".to_string()]));
    assert_eq!(s.actor, None);
    assert_eq!(s.body, Some("w".to_string()));
    assert_eq!(s.level, SearchLevel::Conversation);
    assert!(s.force);
    assert_eq!(SearchLevel::default(), SearchLevel::WithReplies);
}

#[test]
fn chat_query_needs_a_place_or_a_speaker() {
    let s = Search::new(None, None, Some("x".to_string()), SearchLevel::default(), false);
    assert!(chat_query(&s, &page(0, 20)).is_none());
}

#[test]
fn chat_query_by_place() {
    let s = Search::new(Some(vec!["a".to_string(), "b".to_string()]), None, None, SearchLevel::default(), false);
    let q = chat_query(&s, &page(40, 20)).unwrap();
    assert_eq!(
        query_text(&q),
        "SELECT c.id,c.timestamp,c.actor,c.name,c.icon,c.body,l.name location FROM chat c LEFT JOIN location l ON c.location=l.key WHERE 1=1 AND c.location IN(?,?) ORDER BY c.id DESC LIMIT ? OFFSET ?"
    );
}

#[test]
fn chat_query_by_speaker_in_conversation() {
    let s = Search::new(None, Some(vec![1, 2]), Some("hi".to_string()), SearchLevel::Conversation, false);
    let q = chat_query(&s, &page(0, 20)).unwrap();
    assert_eq!(
        query_text(&q),
        "SELECT c.id,c.timestamp,c.actor,c.name,c.icon,c.body,l.name location FROM chat c LEFT JOIN location l ON c.location=l.key WHERE 1=1 AND l.name IS NOT NULL AND (c.actor IN(?,?) OR EXISTS (SELECT 1 FROM chat_mention cm WHERE cm.source=c.id AND cm.target IN(?,?)) OR EXISTS (SELECT 1 FROM chat_anchor ca JOIN chat tc ON ca.target=tc.id WHERE ca.source=c.id AND tc.actor IN(?,?))) AND c.body LIKE ? ORDER BY c.id DESC LIMIT ? OFFSET ?"
    );
}

#[test]
fn chat_query_standalone_and_forced() {
    let s = Search::new(None, Some(vec![7]), None, SearchLevel::Standalone, true);
    let q = chat_query(&s, &page(0, 5)).unwrap();
    assert_eq!(
        query_text(&q),
        "SELECT c.id,c.timestamp,c.actor,c.name,c.icon,c.body,l.name location FROM chat c LEFT JOIN location l ON c.location=l.key WHERE 1=1 AND (c.actor IN(?) AND NOT EXISTS (SELECT 1 FROM chat_anchor ca WHERE ca.source=c.id) AND NOT EXISTS (SELECT 1 FROM chat_mention cm WHERE cm.source=c.id)) ORDER BY c.id DESC LIMIT ? OFFSET ?"
    );
}

#[test]
fn mentions_and_anchors_become_links() {
    let r = link_refs("@12 and &gt;&gt;5 and @0099 and @12");
    assert_eq!(
        r.body,
        "<a data-mention=\"12\">@12</a> and <a data-anchor=\"5\">&gt;&gt;5</a> and <a data-mention=\"99\">@99</a> and <a data-mention=\"12\">@12</a>"
    );
    assert_eq!(r.mentions, vec![12, 99]);
    assert_eq!(r.anchors, vec![5]);
}

#[test]
fn an_unreadable_number_stays_as_it_is() {
    let r = link_refs("@99999999999999999999 x");
    assert_eq!(r.body, "@99999999999999999999 x");
    assert!(r.mentions.is_empty());
    assert!(r.anchors.is_empty());
}

#[test]
fn notify_everyone_but_the_speaker() {
    let mut t = notify_targets(&[3, 4], &[Some(4), None, Some(7)], 3);
    t.sort();
    assert_eq!(t, vec![4, 7]);
    assert!(notify_targets(&[3], &[Some(3)], 3).is_empty());
}

#[test]
fn anchor_query_lists_the_messages() {
    assert!(anchor_actor_query(&[]).is_none());
    let q = anchor_actor_query(&[1, 2, 3]).unwrap();
    assert_eq!(query_text(&q), "SELECT actor FROM chat WHERE id IN (?,?,?)");
}

#[test]
fn post_lengths() {
    let ok = Post { location: "k".into(), name: "n".into(), icon: "i".into(), body: "b".into() };
    assert!(ok.validate().is_ok());
    let bad = Post { location: "x".repeat(17), name: "n".into(), icon: "i".into(), body: "あ".repeat(501) };
    let errors = bad.validate().unwrap_err();
    assert_eq!(errors.len(), 2);
    assert_eq!(errors[0].field, "location");
    assert_eq!(errors[0].message, "16文字以内で入力してください");
    assert_eq!(errors[1].field, "body");
    assert_eq!(errors[1].message, "500文字以内で入力してください");
    let edge = Post { location: "あ".repeat(16), name: "n".into(), icon: "i".repeat(256), body: "b".repeat(500) };
    assert!(edge.validate().is_ok());
}

#[test]
fn mention_notices() {
    assert_eq!(mention_message(5, "abc"), "id:5 から言及されました<br><a href=\"location/abc\">発言場所へ移動</a>");
    let long = "あ".repeat(60);
    let w = mention_webhook(&long, "名前", "icon.png", app_url(false));
    assert_eq!(w.content, format!("{}\n\nhttps://ondyst.untroche.com", "あ".repeat(48)));
    assert_eq!(w.username.as_deref(), Some("名前 (one day's' talk)"));
    assert_eq!(w.avatar_url.as_deref(), Some("icon.png"));
    let short = mention_webhook("hi", "n", "i", app_url(true));
    assert_eq!(short.content, "hi\n\nhttp://ondyst.localhost");
}

#[test]
fn the_sql_of_a_search_depends_only_on_its_shape() {
    let a = Search::new(Some(vec!["x".into()]), Some(vec![1]), Some("'; DROP TABLE chat; --".into()), SearchLevel::WithReplies, false);
    let b = Search::new(Some(vec!["y".into()]), Some(vec![2]), Some("hello".into()), SearchLevel::WithReplies, false);
    let qa = chat_query(&a, &page(0, 20)).unwrap();
    let qb = chat_query(&b, &page(0, 20)).unwrap();
    assert_eq!(query_text(&qa), query_text(&qb));
    assert!(!query_text(&qa).contains("DROP"));
}

#[test]
fn every_bound_value_has_its_placeholder() {
    // Two speakers in a whole conversation are bound three times each, then the words,
    // the limit and the offset: nine values.
    let s = Search::new(None, Some(vec![1, 2]), Some("hi".to_string()), SearchLevel::Conversation, false);
    let q = chat_query(&s, &page(0, 20)).unwrap();
    assert_eq!(query_text(&q).matches('?').count(), 9);
    // Three places and one speaker, with replies, then the limit and the offset: six values.
    let places = vec!["a".to_string(), "b".to_string(), "c".to_string()];
    let s = Search::new(Some(places), Some(vec![5]), None, SearchLevel::WithReplies, false);
    let q = chat_query(&s, &page(0, 20)).unwrap();
    assert_eq!(query_text(&q).matches('?').count(), 6);
    let q = anchor_actor_query(&[4, 5]).unwrap();
    assert_eq!(query_text(&q).matches('?').count(), 2);
}
