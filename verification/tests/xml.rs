use umya_spreadsheet::xml::{get_attribute, tag_attributes, unescape_text, write_end_tag, write_start_tag, write_text};
use umya_spreadsheet::reading::{list_read_step, ReadAction, XmlEventKind};

#[test]
fn tag_attributes_keeps_order_and_raw_values() {
    let attrs = tag_attributes(r#"col a="1" b='x &amp; y' a="2""#, 3);
    assert_eq!(
        attrs,
        vec![
            ("a".to_string(), "1".to_string()),
            ("b".to_string(), "x &amp; y".to_string()),
            ("a".to_string(), "2".to_string()),
        ]
    );
    assert_eq!(get_attribute(&attrs, "a"), Some("1".to_string()), "the first one wins");
    assert_eq!(get_attribute(&attrs, "c"), None);
}

#[test]
fn start_and_end_tags_are_written_with_escaped_values() {
    let mut out = String::new();
    let attrs = vec![("k".to_string(), "<\"'&>".to_string())];
    write_start_tag(&mut out, "e", &attrs, false);
    write_text(&mut out, "1 < 2");
    write_end_tag(&mut out, "e");
    write_start_tag(&mut out, "f", &Vec::new(), true);
    assert_eq!(out, r#"<e k="&lt;&quot;&apos;&amp;&gt;">1 &lt; 2</e><f/>"#);
}

#[test]
fn unescape_replaces_references() {
    assert_eq!(unescape_text("a &lt; b &#65;"), Some("a < b A".to_string()));
    assert_eq!(unescape_text("&nope;"), None);
    assert_eq!(unescape_text("SECOND"), Some("SECOND".to_string()));
}

#[test]
fn list_read_step_decisions() {
    assert_eq!(list_read_step(XmlEventKind::Start, "dxf", "dxf", "dxfs"), ReadAction::ReadItem);
    assert_eq!(list_read_step(XmlEventKind::Empty, "dxf", "dxf", "dxfs"), ReadAction::ReadEmptyItem);
    assert_eq!(list_read_step(XmlEventKind::End, "dxfs", "dxf", "dxfs"), ReadAction::Finish);
    assert_eq!(list_read_step(XmlEventKind::End, "dxf", "dxf", "dxfs"), ReadAction::Skip);
    assert_eq!(list_read_step(XmlEventKind::Eof, "", "dxf", "dxfs"), ReadAction::Fail);
    assert_eq!(list_read_step(XmlEventKind::Text, "dxf", "dxf", "dxfs"), ReadAction::Skip);
}
