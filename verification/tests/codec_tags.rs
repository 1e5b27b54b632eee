use std::borrow::Cow;

use untroche::common::html_codec::{tag, HTMLEncode, TagFormat};
use untroche::ondyst::utils::tag_parse::{part, Ondyst};

fn chars(s: &str) -> Vec<char> {
    s.chars().collect()
}

fn strings(parts: Vec<Vec<char>>) -> Vec<String> {
    parts.into_iter().map(|p| p.into_iter().collect()).collect()
}

#[test]
fn codec_named_tags() {
    assert_eq!(Ondyst.parse("[b/x/b]"), "<b>x</b>");
    assert_eq!(Ondyst.parse("a[i/b[u/c/u]/i]d"), "a<i>b<u>c</u></i>d");
    assert_eq!(Ondyst.parse("[x/y/x]"), "[x/y/x]");
    assert_eq!(Ondyst.parse("[ruby/漢|かん/ruby]"), "<ruby>漢<rp>(</rp><rt>かん</rt><rp>)</rp></ruby>");
    assert_eq!(Ondyst.parse("[ruby/漢/ruby]"), "<em>漢</em>");
}

#[test]
fn codec_image_is_base64() {
    assert_eq!(Ondyst.parse("[image/ab/image]"), "<img src=\"YWI=\">");
}

#[test]
fn codec_unnamed_tags() {
    assert_eq!(Ondyst.parse("[br]"), "<br>");
    assert_eq!(Ondyst.parse("[only]"), "only");
    assert_eq!(Ondyst.parse("[a|a|a]"), "a");
    let picked = Ondyst.parse("[x|y]").into_owned();
    assert!(picked == "x" || picked == "y");
}

#[test]
fn codec_escapes_and_plain_text() {
    assert_eq!(Ondyst.parse("\\[x"), "[x");
    assert!(matches!(Ondyst.parse("plain text"), Cow::Borrowed("plain text")));
}

#[test]
fn codec_refuses_a_tag_closed_by_its_own_name() {
    assert!(!Ondyst.can_parse("[b/b]"));
    assert!(!Ondyst.can_parse("[/]"));
    assert!(Ondyst.checked_parse("[b/b]").is_none());
    assert!(Ondyst.can_parse("[b/x/b]"));
    assert_eq!(Ondyst.checked_parse("[b/x/b]").unwrap(), "<b>x</b>");
}

#[test]
fn codec_tag_function_and_trait() {
    assert_eq!(tag("[s/z/s]", Ondyst), "<s>z</s>");
    assert_eq!("[u/w/u]".tag(Ondyst), "<u>w</u>");
}

#[test]
fn part_splits_at_top_level_bars() {
    assert_eq!(strings(part(&chars("a|b|c"), 0)), vec!["a", "b", "c"]);
    assert_eq!(strings(part(&chars("a|b|c"), 1)), vec!["a", "b|c"]);
    assert_eq!(strings(part(&chars("[x|y]|z"), 0)), vec!["[x|y]", "z"]);
    assert_eq!(strings(part(&chars("a\\|b|c"), 0)), vec!["a\\|b", "c"]);
    assert_eq!(strings(part(&chars(""), 0)), vec![""]);
}

#[test]
fn codec_names_are_letters_and_digits() {
    assert_eq!(Ondyst.parse("[+/x/+]"), "+/x/+");
    assert_eq!(Ondyst.parse("[名前/x/名前]"), "[名前/x/名前]");
}

#[test]
fn codec_plain_text_renders_as_itself() {
    for s in ["no tags at all", "a] b / c | d", ""] {
        assert!(Ondyst.can_parse(s));
        assert_eq!(Ondyst.parse(s), s);
    }
}

#[test]
fn plain_text_comes_back_borrowed() {
    let raw = "no markup here";
    match Ondyst.checked_parse(raw).unwrap() {
        Cow::Borrowed(s) => assert_eq!(s, raw),
        Cow::Owned(_) => panic!("expected the input itself"),
    }
    match tag(raw, Ondyst) {
        Cow::Borrowed(s) => assert_eq!(s, raw),
        Cow::Owned(_) => panic!("expected the input itself"),
    }
}
