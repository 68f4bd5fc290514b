use quick_xml::events::Event;
use quick_xml::Reader;
use umya_spreadsheet::reading::{XmlEvent, XmlEventKind};
use umya_spreadsheet::xml::tag_attributes;

/// The events after the start tag of the first `list` element, up to the end of the
/// document.
fn events_after(xml: &str, list: &str) -> Vec<XmlEvent> {
    let mut reader = Reader::from_str(xml);
    reader.config_mut().trim_text(false);
    let mut started = false;
    let mut out = Vec::new();
    loop {
        let event = reader.read_event().expect("well-formed fixture");
        let converted = match &event {
            Event::Start(e) | Event::Empty(e) => {
                let content = std::str::from_utf8(&e[..]).unwrap();
                let name = String::from_utf8(e.local_name().as_ref().to_vec()).unwrap();
                let kind = if matches!(event, Event::Start(_)) { XmlEventKind::Start } else { XmlEventKind::Empty };
                let attributes = tag_attributes(content, e.name().as_ref().len());
                XmlEvent { kind, name, attributes, text: String::new() }
            }
            Event::End(e) => XmlEvent {
                kind: XmlEventKind::End,
                name: String::from_utf8(e.local_name().as_ref().to_vec()).unwrap(),
                attributes: Vec::new(),
                text: String::new(),
            },
            Event::Text(t) => XmlEvent {
                kind: XmlEventKind::Text,
                name: String::new(),
                attributes: Vec::new(),
                text: std::str::from_utf8(&t[..]).unwrap().to_string(),
            },
            Event::Eof => XmlEvent { kind: XmlEventKind::Eof, name: String::new(), attributes: Vec::new(), text: String::new() },
            _ => XmlEvent { kind: XmlEventKind::Other, name: String::new(), attributes: Vec::new(), text: String::new() },
        };
        let eof = converted.kind == XmlEventKind::Eof;
        if started {
            out.push(converted);
        } else if converted.kind == XmlEventKind::Start && converted.name == list {
            started = true;
        }
        if eof {
            return out;
        }
    }
}
use umya_spreadsheet::fills::Fills;
use umya_spreadsheet::reading::ListEnd;
use umya_spreadsheet::styles::{Fill, PatternFill, PatternValues, Style};

fn parse(xml: &str) -> Fills {
    let events = events_after(xml, "fills");
    let mut obj = Fills::default();
    let (end, _) = obj.set_attributes(&events);
    assert_eq!(end, ListEnd::Finished, "Error: Could not find fills end element");
    obj
}

#[test]
fn self_closing_fill_keeps_its_index() {
    let obj = parse(&[
        r#"<fills count="3">"#,
        "<fill/>",
        r#"<fill><patternFill patternType="solid"/></fill>"#,
        "<fill/>",
        "</fills>",
    ].concat());
    assert_eq!(obj.fill().len(), 3, "all three fills must be present");
    assert!(obj.fill()[1].pattern_fill().is_some(), "the solid fill must still be at fillId 1, not shifted to 0");
}

#[test]
fn fills_set_style_stores_each_fill_once() {
    let mut obj = Fills::new();
    assert_eq!(obj.set_style(&Style::default()), 0, "a style without a fill gets 0");
    assert_eq!(obj.get_fill().len(), 0);
    let solid = Style { font: None, fill: Some(Fill { pattern_fill: Some(PatternFill { pattern_type: PatternValues::Solid }) }) };
    let none = Style { font: None, fill: Some(Fill::default()) };
    assert_eq!(obj.set_style(&none), 0);
    assert_eq!(obj.set_style(&solid), 1);
    assert_eq!(obj.set_style(&solid), 1);
    assert_eq!(obj.set_style(&none), 0);
    assert_eq!(obj.fill().len(), 2);
    obj.fill_mut().clear();
    assert_eq!(obj.get_fill_mut().len(), 0);
}

#[test]
fn fills_write_count_and_items() {
    let mut obj = Fills::new();
    obj.set_fill(Fill::default());
    obj.set_fill(Fill { pattern_fill: Some(PatternFill { pattern_type: PatternValues::DarkGray }) });
    let mut out = String::new();
    obj.write_to(&mut out);
    assert_eq!(out, r#"<fills count="2"><fill></fill><fill><patternFill patternType="darkGray"/></fill></fills>"#);
}

#[test]
fn pattern_values_round_trip() {
    let all = [
        PatternValues::NoPattern, PatternValues::Solid, PatternValues::MediumGray, PatternValues::DarkGray,
        PatternValues::LightGray, PatternValues::DarkHorizontal, PatternValues::DarkVertical, PatternValues::DarkDown,
        PatternValues::DarkUp, PatternValues::DarkGrid, PatternValues::DarkTrellis, PatternValues::LightHorizontal,
        PatternValues::LightVertical, PatternValues::LightDown, PatternValues::LightUp, PatternValues::LightGrid,
        PatternValues::LightTrellis, PatternValues::Gray125, PatternValues::Gray0625,
    ];
    for v in all {
        assert_eq!(PatternValues::from_str(v.value_string()), Ok(v));
    }
    assert_eq!(PatternValues::from_str("Solid"), Err(()));
}

#[test]
fn fill_read_empty_item_pushes_a_default() {
    let mut obj = Fills::new();
    obj.read_empty_item();
    assert_eq!(obj.fill(), &[Fill::default()]);
}
