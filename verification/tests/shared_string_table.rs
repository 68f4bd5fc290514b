use quick_xml::events::Event;
use quick_xml::Reader;
use umya_spreadsheet::reading::{XmlEvent, XmlEventKind};
use umya_spreadsheet::xml::tag_attributes;

/// The events after the start tag of the first `list` element, up to the end of the
/// document.
fn events_after(xml: &str, list: &str) -> Vec<XmlEvent> {
    let mut reader = Reader::from_str(xml);
    reader.config_mut().trim_text(false);
    let mut started = false;
    let mut out = Vec::new();
    loop {
        let event = reader.read_event().expect("well-formed fixture");
        let converted = match &event {
            Event::Start(e) | Event::Empty(e) => {
                let content = std::str::from_utf8(&e[..]).unwrap();
                let name = String::from_utf8(e.local_name().as_ref().to_vec()).unwrap();
                let kind = if matches!(event, Event::Start(_)) { XmlEventKind::Start } else { XmlEventKind::Empty };
                let attributes = tag_attributes(content, e.name().as_ref().len());
                XmlEvent { kind, name, attributes, text: String::new() }
            }
            Event::End(e) => XmlEvent {
                kind: XmlEventKind::End,
                name: String::from_utf8(e.local_name().as_ref().to_vec()).unwrap(),
                attributes: Vec::new(),
                text: String::new(),
            },
            Event::Text(t) => XmlEvent {
                kind: XmlEventKind::Text,
                name: String::new(),
                attributes: Vec::new(),
                text: std::str::from_utf8(&t[..]).unwrap().to_string(),
            },
            Event::Eof => XmlEvent { kind: XmlEventKind::Eof, name: String::new(), attributes: Vec::new(), text: String::new() },
            _ => XmlEvent { kind: XmlEventKind::Other, name: String::new(), attributes: Vec::new(), text: String::new() },
        };
        let eof = converted.kind == XmlEventKind::Eof;
        if started {
            out.push(converted);
        } else if converted.kind == XmlEventKind::Start && converted.name == list {
            started = true;
        }
        if eof {
            return out;
        }
    }
}
use umya_spreadsheet::reading::ListEnd;
use umya_spreadsheet::shared_string_table::{CellValue, RichText, SharedStringItem, SharedStringTable};

fn parse(xml: &str) -> SharedStringTable {
    let events = events_after(xml, "sst");
    let mut obj = SharedStringTable::new();
    let (end, _) = obj.set_attributes(&events);
    assert_eq!(end, ListEnd::Finished, "Error: Could not find sst end element");
    obj
}

#[test]
fn self_closing_si_keeps_later_strings_aligned() {
    let obj = parse(&[
        r#"<sst count="3" uniqueCount="3">"#,
        "<si/>",
        "<si><t>SECOND</t></si>",
        "<si><t>THIRD</t></si>",
        "</sst>",
    ].concat());
    let items = obj.shared_string_item();
    assert_eq!(items.len(), 3, "the empty <si/> must occupy index 0");
    let text_at = |i: usize| items[i].text().map(|t| t.to_string()).unwrap_or_default();
    assert_eq!(text_at(0), "", "index 0 is the empty <si/>");
    assert_eq!(text_at(1), "SECOND", "index 1 must NOT have shifted to 0");
    assert_eq!(text_at(2), "THIRD");
}

#[test]
fn shared_strings_read_escapes_and_runs() {
    let obj = parse(r#"<sst><si><t>a &amp; b</t></si><si><r><t>x</t></r><r><t>y</t></r></si></sst>"#);
    let items = obj.get_shared_string_item();
    assert_eq!(items[0].text(), Some("a & b"));
    let rich = items[1].rich_text().expect("runs");
    assert_eq!(rich.run_count(), 2);
    assert_eq!(rich.run(0), "x");
    assert_eq!(rich.run(1), "y");
}

#[test]
fn shared_string_with_a_bad_reference_fails() {
    let events = events_after(r#"<sst><si><t>&bogus;</t></si></sst>"#, "sst");
    let mut obj = SharedStringTable::new();
    assert_eq!(obj.set_attributes(&events).0, ListEnd::Failed);
}

#[test]
fn set_cell_stores_each_text_once() {
    let mut obj = SharedStringTable::new();
    assert!(!obj.has_value());
    assert_eq!(obj.set_cell(&CellValue::from_text("a")), 0);
    assert_eq!(obj.set_cell(&CellValue::from_text("b")), 1);
    assert_eq!(obj.set_cell(&CellValue::from_text("a")), 0);
    let mut rich = RichText::new();
    rich.add_run("a");
    assert_eq!(obj.set_cell(&CellValue::from_rich_text(rich.clone())), 2);
    assert_eq!(obj.set_cell(&CellValue::from_rich_text(rich)), 2);
    assert_eq!(obj.set_cell(&CellValue::empty()), 3);
    assert!(obj.has_value());
    assert_eq!(obj.shared_string_item().len(), 4);
    let mut out = String::new();
    obj.write_to(&mut out);
    assert_eq!(
        out,
        [
            r#"<sst xmlns="http://schemas.openxmlformats.org/spreadsheetml/2006/main" count="6" uniqueCount="4">"#,
            "<si><t>a</t></si><si><t>b</t></si><si><r><t>a</t></r></si><si></si></sst>",
        ].concat()
    );
}

#[test]
fn shared_string_item_hash_follows_its_content() {
    let mut a = SharedStringItem::new();
    a.set_text("x");
    let mut b = SharedStringItem::new();
    b.set_text("x");
    let mut c = SharedStringItem::new();
    c.set_text("y");
    assert_eq!(a.hash_u64(), b.hash_u64());
    assert_ne!(a.hash_u64(), c.hash_u64());
}

#[test]
fn shared_string_items_added_directly() {
    let mut obj = SharedStringTable::new();
    obj.set_shared_string_item(SharedStringItem::new());
    obj.shared_string_item_mut().push(SharedStringItem::new());
    assert_eq!(obj.get_shared_string_item_mut().len(), 2);
    obj.read_empty_item(2);
    assert_eq!(obj.shared_string_item().len(), 3);
}

#[test]
fn set_cell_after_reading_gives_the_last_matching_string() {
    let mut obj = parse("<sst><si><t>A</t></si><si><t>B</t></si><si><t>A</t></si></sst>");
    assert_eq!(obj.shared_string_item().len(), 3);
    assert_eq!(obj.set_cell(&CellValue::from_text("A")), 2);
    assert_eq!(obj.set_cell(&CellValue::from_text("B")), 1);
    assert_eq!(obj.shared_string_item().len(), 3);
}

#[test]
fn plain_shared_strings_read_back_as_written() {
    let obj = parse("<sst><si><t>SECOND</t></si></sst>");
    assert_eq!(obj.shared_string_item()[0].text(), Some("SECOND"));
}

#[test]
fn sst_cut_short_ends_early() {
    let events = events_after("<sst><si><t>A</t></si>", "sst");
    assert!(umya_spreadsheet::reading::ends_before_list_end(&events, "si", "sst", true));
    let events = events_after("<sst><si><t>A</t></si></sst>", "sst");
    assert!(!umya_spreadsheet::reading::ends_before_list_end(&events, "si", "sst", true));
}
