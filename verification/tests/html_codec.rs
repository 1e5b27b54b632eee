use std::borrow::Cow;

use untroche::common::html_codec::{br, escape, escape_and_link, rm_br, unescape, HTMLDecode, HTMLEncode};

#[test]
fn br_converts_every_line_break() {
    assert_eq!(br("a\nb\r\nc\rd"), "a<br>b<br>c<br>d");
    assert!(matches!(br("no breaks"), Cow::Borrowed("no breaks")));
}

#[test]
fn br_is_idempotent_on_an_example() {
    let once = br("x\r\ny").into_owned();
    assert_eq!(br(&once), once.as_str());
}

#[test]
fn escape_with_and_without_quotes() {
    assert_eq!(escape("<a href='x'>&\"", true), "&lt;a href=&apos;x&apos;&gt;&amp;&quot;");
    assert_eq!(escape("<a href='x'>&\"", false), "&lt;a href='x'&gt;&amp;\"");
    assert!(matches!(escape("plain text", true), Cow::Borrowed("plain text")));
}

#[test]
fn unescape_known_entities() {
    assert_eq!(unescape("&lt;p&gt; &amp;amp; &#39;&apos;&quot;&nbsp;&x;"), "<p> &amp; ''\" &x;");
    assert!(matches!(unescape("nothing"), Cow::Borrowed("nothing")));
}

#[test]
fn unescape_undoes_escape() {
    for s in ["<b>\"quoted\" & 'single'</b>", "&amp; already", "日本語 & <tag>", ""] {
        assert_eq!(unescape(&escape(s, true)), s);
        assert_eq!(unescape(&escape(s, false)), s);
    }
}

#[test]
fn rm_br_removes_line_breaks() {
    assert_eq!(rm_br("a\r\nb\nc\r"), "abc");
    assert!(matches!(rm_br("abc"), Cow::Borrowed("abc")));
    let converted = br("a\nb").into_owned();
    assert_eq!(rm_br(&converted), converted.as_str());
}

#[test]
fn escape_and_link_web_address() {
    assert_eq!(
        escape_and_link("visit https://example.com/x?a=1&b=2 now"),
        "visit <a target=\"_blank\" href=\"https://example.com/x?a=1&b=2\">https://example.com/x?a=1&amp;b=2</a> now"
    );
}

#[test]
fn escape_and_link_handles() {
    assert_eq!(
        escape_and_link("@alice@misskey.io hi"),
        "<a target=\"_blank\" href=\"https://misskey.io/@alice\">@alice@misskey.io</a> hi"
    );
    assert_eq!(
        escape_and_link("@bob.bsky.social"),
        "<a target=\"_blank\" href=\"https://bsky.app/profile/bob.bsky.social\">@bob.bsky.social</a>"
    );
    assert_eq!(escape_and_link("@jack_dorsey"), "<a target=\"_blank\" href=\"https://x.com/jack_dorsey\">@jack_dorsey</a>");
}

#[test]
fn escape_and_link_without_links_only_escapes() {
    assert_eq!(escape_and_link("a < b"), "a &lt; b");
    assert!(matches!(escape_and_link("plain"), Cow::Borrowed("plain")));
}

#[test]
fn encode_and_decode_traits() {
    assert_eq!("x\ny".br(), "x<br>y");
    assert_eq!("<".escape(false), "&lt;");
    assert_eq!("&gt;".unescape(), ">");
    assert_eq!("a\nb".rm_br(), "ab");
}

#[test]
fn escaped_text_opens_no_element() {
    let out = escape("<script>alert('x')</script>", false).into_owned();
    assert!(!out.contains('<') && !out.contains('>'));
}
