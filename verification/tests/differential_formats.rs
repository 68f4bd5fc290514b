use quick_xml::events::Event;
use quick_xml::Reader;
use umya_spreadsheet::reading::{ends_before_list_end, XmlEvent, XmlEventKind};
use umya_spreadsheet::xml::tag_attributes;

/// The events after the start tag of the first `list` element, up to the end of the
/// document.
fn events_after(xml: &str, list: &str) -> Vec<XmlEvent> {
    let mut reader = Reader::from_str(xml);
    reader.config_mut().trim_text(false);
    let mut started = false;
    let mut out = Vec::new();
    loop {
        let event = reader.read_event().expect("well-formed fixture");
        let converted = match &event {
            Event::Start(e) | Event::Empty(e) => {
                let content = std::str::from_utf8(&e[..]).unwrap();
                let name = String::from_utf8(e.local_name().as_ref().to_vec()).unwrap();
                let kind = if matches!(event, Event::Start(_)) { XmlEventKind::Start } else { XmlEventKind::Empty };
                let attributes = tag_attributes(content, e.name().as_ref().len());
                XmlEvent { kind, name, attributes, text: String::new() }
            }
            Event::End(e) => XmlEvent {
                kind: XmlEventKind::End,
                name: String::from_utf8(e.local_name().as_ref().to_vec()).unwrap(),
                attributes: Vec::new(),
                text: String::new(),
            },
            Event::Text(t) => XmlEvent {
                kind: XmlEventKind::Text,
                name: String::new(),
                attributes: Vec::new(),
                text: std::str::from_utf8(&t[..]).unwrap().to_string(),
            },
            Event::Eof => XmlEvent { kind: XmlEventKind::Eof, name: String::new(), attributes: Vec::new(), text: String::new() },
            _ => XmlEvent { kind: XmlEventKind::Other, name: String::new(), attributes: Vec::new(), text: String::new() },
        };
        let eof = converted.kind == XmlEventKind::Eof;
        if started {
            out.push(converted);
        } else if converted.kind == XmlEventKind::Start && converted.name == list {
            started = true;
        }
        if eof {
            return out;
        }
    }
}
use umya_spreadsheet::differential_formats::DifferentialFormats;
use umya_spreadsheet::reading::ListEnd;
use umya_spreadsheet::styles::{Color, DifferentialFormat, Fill, Font, PatternFill, PatternValues, Style};

fn parse(xml: &str) -> DifferentialFormats {
    let events = events_after(xml, "dxfs");
    let mut obj = DifferentialFormats::default();
    let (end, _) = obj.set_attributes(&events);
    assert_eq!(end, ListEnd::Finished, "Error: Could not find dxfs end element");
    obj
}

#[test]
fn self_closing_dxf_keeps_its_index() {
    let xml = &[
        r#"<styleSheet><dxfs count="7">"#,
        "<dxf/><dxf/><dxf/><dxf/>",
        r#"<dxf><font><color theme="1"/></font></dxf>"#,
        "<dxf/><dxf/>",
        "</dxfs></styleSheet>",
    ].concat();
    let obj = parse(xml);
    assert_eq!(obj.differential_format().len(), 7, "all 7 dxfs must be parsed, including the self-closing ones");
    assert_ne!(obj.style(4), Style::default(), "dxf[4] carries the font colour, so it must not be the default");
    assert_eq!(obj.style(6), Style::default(), "dxf[6] is <dxf/>, so default");
    assert_eq!(obj.style(0), Style::default(), "dxf[0] is <dxf/>, so default");
}

#[test]
fn out_of_range_dxf_id_returns_default_style() {
    let obj = parse(r#"<styleSheet><dxfs count="1"><dxf/></dxfs></styleSheet>"#);
    assert_eq!(obj.differential_format().len(), 1);
    let fallback = obj.style(999);
    assert_eq!(fallback, Style::default());
}

#[test]
fn dxf_content_is_read_into_font_and_fill() {
    let obj = parse(&[
        r#"<dxfs count="1"><dxf><font><color rgb="FF9C0006"/></font>"#,
        r#"<fill><patternFill patternType="solid"/></fill></dxf></dxfs>"#,
    ].concat());
    let style = obj.get_style(0);
    assert_eq!(style.font, Some(Font { color: Some(Color { argb: Some(0xFF9C0006), theme_index: None }) }));
    assert_eq!(style.fill, Some(Fill { pattern_fill: Some(PatternFill { pattern_type: PatternValues::Solid }) }));
}

#[test]
fn dxfs_without_end_tag_end_early() {
    let events = events_after("<dxfs><dxf/>", "dxfs");
    assert!(ends_before_list_end(&events, "dxf", "dxfs", true));
    let events = events_after("<dxfs><dxf><font>", "dxfs");
    assert!(ends_before_list_end(&events, "dxf", "dxfs", true));
    let events = events_after("<dxfs><dxf/></dxfs>", "dxfs");
    assert!(!ends_before_list_end(&events, "dxf", "dxfs", true));
}

#[test]
fn dxf_set_style_stores_each_style_once() {
    let mut obj = DifferentialFormats::new();
    let red = Style { font: Some(Font { color: Some(Color { argb: Some(0xFFFF0000), theme_index: None }) }), fill: None };
    let solid = Style { font: None, fill: Some(Fill { pattern_fill: Some(PatternFill { pattern_type: PatternValues::Solid }) }) };
    assert_eq!(obj.set_style(&red), 0);
    assert_eq!(obj.set_style(&solid), 1);
    assert_eq!(obj.set_style(&red), 0);
    assert_eq!(obj.set_style(&solid), 1);
    assert_eq!(obj.get_differential_format().len(), 2);
    assert_eq!(obj.style(1), solid);
}

#[test]
fn dxfs_write_count_and_items() {
    let mut obj = DifferentialFormats::new();
    let mut out = String::new();
    obj.write_to(&mut out);
    assert_eq!(out, "", "no formats, no element");
    obj.set_differential_format(DifferentialFormat::default());
    let mut d = DifferentialFormat::default();
    d.set_style(&Style { font: None, fill: Some(Fill { pattern_fill: Some(PatternFill { pattern_type: PatternValues::Gray125 }) }) });
    obj.set_differential_format(d);
    obj.differential_format_mut().push(DifferentialFormat::default());
    assert_eq!(obj.get_differential_format_mut().len(), 3);
    obj.write_to(&mut out);
    assert_eq!(
        out,
        [
            r#"<dxfs count="3"><dxf></dxf>"#,
            r#"<dxf><fill><patternFill patternType="gray125"/></fill></dxf>"#,
            "<dxf></dxf></dxfs>",
        ].concat()
    );
}

#[test]
fn dxf_read_empty_item_pushes_a_default() {
    let mut obj = DifferentialFormats::new();
    obj.read_empty_item();
    assert_eq!(obj.differential_format(), &[DifferentialFormat::default()]);
}
