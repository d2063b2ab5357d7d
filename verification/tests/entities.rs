use grades_list::entities::{decode_chars, html_entities};
use grades_list::text::{from_chars, to_chars};

#[test]
fn entity_decoding_example() {
    assert_eq!(html_entities("F&nbsp;2020 &amp; Fall"), "F2020 & Fall");
}

#[test]
fn nbsp_is_removed_not_replaced_by_a_space() {
    assert_eq!(html_entities("a&nbsp;b"), "ab");
    assert_eq!(html_entities("&nbsp;"), "");
    assert_eq!(html_entities("a &nbsp; b"), "a  b");
}

#[test]
fn each_entity_is_decoded() {
    assert_eq!(html_entities("&amp;"), "&");
    assert_eq!(html_entities("&lt;"), "<");
    assert_eq!(html_entities("&gt;"), ">");
    assert_eq!(html_entities("1 &lt; 2 &amp;&amp; 3 &gt; 2"), "1 < 2 && 3 > 2");
}

#[test]
fn other_entities_are_left_alone() {
    assert_eq!(html_entities("&quot;x&quot; &#39; &copy; &AMP; &amp"), "&quot;x&quot; &#39; &copy; &AMP; &amp");
    assert_eq!(html_entities(""), "");
    assert_eq!(html_entities("plain text"), "plain text");
}

#[test]
fn decoding_goes_step_by_step() {
    assert_eq!(html_entities("&amp;lt;"), "<");
    assert_eq!(html_entities("&amp;gt;"), ">");
    assert_eq!(html_entities("&amp;amp;"), "&amp;");
    assert_eq!(html_entities("&a&nbsp;mp;"), "&");
    assert_eq!(html_entities("&lt;amp;"), "<amp;");
}

#[test]
fn html_entities_is_the_four_replacements_of_std() {
    let cases = ["F&nbsp;2020 &amp; Fall", "&amp;lt;&nbsp;&gt;", "a&b<c>d", "&&&amp;;;", "&nb&nbsp;sp;"];
    for s in cases {
        let expected =
            s.replace("&nbsp;", "").replace("&amp;", "&").replace("&lt;", "<").replace("&gt;", ">");
        assert_eq!(html_entities(s), expected, "{:?}", s);
        assert_eq!(from_chars(&decode_chars(&to_chars(s))), expected, "{:?}", s);
    }
}
