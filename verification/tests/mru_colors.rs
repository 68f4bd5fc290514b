use quick_xml::events::Event;
use quick_xml::Reader;
use umya_spreadsheet::reading::{XmlEvent, XmlEventKind};
use umya_spreadsheet::xml::tag_attributes;

/// The events after the start tag of the first `list` element, up to the end of the
/// document.
fn events_after(xml: &str, list: &str) -> Vec<XmlEvent> {
    let mut reader = Reader::from_str(xml);
    reader.config_mut().trim_text(false);
    let mut started = false;
    let mut out = Vec::new();
    loop {
        let event = reader.read_event().expect("well-formed fixture");
        let converted = match &event {
            Event::Start(e) | Event::Empty(e) => {
                let content = std::str::from_utf8(&e[..]).unwrap();
                let name = String::from_utf8(e.local_name().as_ref().to_vec()).unwrap();
                let kind = if matches!(event, Event::Start(_)) { XmlEventKind::Start } else { XmlEventKind::Empty };
                let attributes = tag_attributes(content, e.name().as_ref().len());
                XmlEvent { kind, name, attributes, text: String::new() }
            }
            Event::End(e) => XmlEvent {
                kind: XmlEventKind::End,
                name: String::from_utf8(e.local_name().as_ref().to_vec()).unwrap(),
                attributes: Vec::new(),
                text: String::new(),
            },
            Event::Text(t) => XmlEvent {
                kind: XmlEventKind::Text,
                name: String::new(),
                attributes: Vec::new(),
                text: std::str::from_utf8(&t[..]).unwrap().to_string(),
            },
            Event::Eof => XmlEvent { kind: XmlEventKind::Eof, name: String::new(), attributes: Vec::new(), text: String::new() },
            _ => XmlEvent { kind: XmlEventKind::Other, name: String::new(), attributes: Vec::new(), text: String::new() },
        };
        let eof = converted.kind == XmlEventKind::Eof;
        if started {
            out.push(converted);
        } else if converted.kind == XmlEventKind::Start && converted.name == list {
            started = true;
        }
        if eof {
            return out;
        }
    }
}
use umya_spreadsheet::mru_colors::MruColors;
use umya_spreadsheet::reading::ListEnd;
use umya_spreadsheet::styles::Color;

fn argb_parts(c: &Color) -> (u8, u8, u8, u8) {
    let v = c.argb.expect("an argb value");
    ((v >> 24) as u8, (v >> 16) as u8, (v >> 8) as u8, v as u8)
}

#[test]
fn self_closing_colors_are_parsed() {
    let xml = &[
        "<colors><mruColors>",
        r#"<color rgb="FFFF0000"/><color rgb="FF00FF00"/>"#,
        "</mruColors></colors>",
    ].concat();
    let events = events_after(xml, "mruColors");
    let mut obj = MruColors::default();
    assert_eq!(obj.set_attributes(&events).0, ListEnd::Finished);
    assert_eq!(obj.color().len(), 2, "both self-closing colours must parse");
    assert_eq!(argb_parts(&obj.color()[0]), (0xFF, 0xFF, 0x00, 0x00), "first is red");
    assert_eq!(argb_parts(&obj.color()[1]), (0xFF, 0x00, 0xFF, 0x00), "second is green");
}

#[test]
fn colors_with_content_are_read_from_their_start_tag() {
    let events = events_after(r#"<mruColors><color theme="3"></color><color rgb="zz"/></mruColors>"#, "mruColors");
    let mut obj = MruColors::new();
    let (end, taken) = obj.set_attributes(&events);
    assert_eq!(end, ListEnd::Finished);
    assert_eq!(taken, 4);
    assert_eq!(obj.get_color(), &[Color { argb: None, theme_index: Some(3) }, Color { argb: None, theme_index: None }]);
}

#[test]
fn mru_colors_write_out() {
    let mut obj = MruColors::new();
    let mut out = String::new();
    obj.write_to(&mut out);
    assert_eq!(out, "");
    obj.set_color(Color { argb: Some(0xFF00FF00), theme_index: None });
    obj.color_mut().push(Color { argb: None, theme_index: Some(1) });
    assert_eq!(obj.get_color_mut().len(), 2);
    obj.write_to(&mut out);
    assert_eq!(out, r#"<mruColors><color rgb="FF00FF00"/><color theme="1"/></mruColors>"#);
}

#[test]
fn mru_colors_cut_short_end_early() {
    let events = events_after(r#"<mruColors><color rgb="FFFF0000">"#, "mruColors");
    assert!(umya_spreadsheet::reading::ends_before_list_end(&events, "color", "mruColors", false));
    let events = events_after(r#"<mruColors><color rgb="FFFF0000"></color></mruColors>"#, "mruColors");
    assert!(!umya_spreadsheet::reading::ends_before_list_end(&events, "color", "mruColors", false));
}
