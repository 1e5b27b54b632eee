use untroche::common::html_encode::{escape_and_br, escape_str, parse_tag, process_plain_text, to_html, HTMLEncode};
use untroche::ondyst::util::tag_parse::Ondyst;

#[test]
fn escape_str_escapes_and_breaks() {
    assert_eq!(escape_str("a/b\"c'<>&\n"), "a&frasl;b&quot;c&apos;&lt;&gt;&amp;<br>");
    let mut out = String::from("x");
    escape_and_br("\r\ny", &mut out);
    assert_eq!(out, "x<br>y");
}

#[test]
fn plain_text_links() {
    let mut out = String::new();
    process_plain_text("go http://a.b now", &mut out);
    assert_eq!(out, "go <a target=\"_blank\" href=\"http://a.b\">http:&frasl;&frasl;a.b</a> now");
}

#[test]
fn site_tags() {
    assert_eq!("[b/bold/b]".to_html(&Ondyst, false), "<b>bold</b>");
    assert_eq!("[ruby/漢字|かんじ/ruby]".to_html(&Ondyst, false), "<ruby>漢字<rp>(</rp><rt>かんじ</rt><rp>)</rp></ruby>");
    assert_eq!("[image/a\"b/image]".to_html(&Ondyst, false), "<img src=\"a%22b\">");
    assert_eq!("[foo/x/foo]".to_html(&Ondyst, false), "[foo/x/foo]");
    assert_eq!("[random/only/random]".to_html(&Ondyst, false), "<random>only</random>");
    assert_eq!(to_html("a\nb", &Ondyst, false), "a<br>b");
}

#[test]
fn site_tags_with_links() {
    assert_eq!(
        "[b/bold/b] http://a.b".to_html(&Ondyst, true),
        "<b>bold</b> <a target=\"_blank\" href=\"http://a.b\">http:&frasl;&frasl;a.b</a>"
    );
}

#[test]
fn parse_tag_finds_a_tag_at_the_start() {
    let t = parse_tag("[b/x/b]rest").unwrap();
    assert_eq!(t.name, "b");
    assert_eq!(t.content, "x");
    assert_eq!(t.size, 7);
    assert!(parse_tag("no tag").is_none());
    assert!(parse_tag("[b/unclosed").is_none());
}

#[test]
fn tag_size_counts_bytes() {
    let t = parse_tag("[b/あ/b]").unwrap();
    assert_eq!(t.name, "b");
    assert_eq!(t.content, "あ");
    assert_eq!(t.size, 9);
    assert_eq!("[b/あ/b]x".to_html(&Ondyst, false), "<b>あ</b>x");
}

#[test]
fn text_without_brackets_renders_as_plain_text() {
    let s = "a<b> & \"c\"\nsee http://x.y/z";
    assert_eq!(s.to_html(&Ondyst, false), escape_str(s));
    let mut plain = String::new();
    process_plain_text(s, &mut plain);
    assert_eq!(s.to_html(&Ondyst, true), plain);
    assert_eq!("".to_html(&Ondyst, true), "");
}

#[test]
fn the_empty_text_renders_as_nothing() {
    let mut plain = String::new();
    process_plain_text("", &mut plain);
    assert_eq!(plain, "");
    assert_eq!("".to_html(&Ondyst, true), plain);
    assert_eq!("".to_html(&Ondyst, false), escape_str(""));
}
