use untroche::common::html_encode::HTMLEncode;
use untroche::ondyst::util::tag_parse as tag;

#[test]
fn tag_parse() {
    let raw = "[b/タグはちゃんと[i/動作しているか/i]/b]";
    let html = raw.to_html(&tag::Ondyst, false);
    assert_eq!(html, "<b>タグはちゃんと<i>動作しているか</i></b>");
}
