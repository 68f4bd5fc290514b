use umya_spreadsheet::data_field::DataField;
use umya_spreadsheet::xml::tag_attributes;

fn read_data_field(xml: &str) -> DataField {
    let content = &xml[1..xml.len() - 2];
    let attrs = tag_attributes(content, "dataField".len());
    let mut df = DataField::default();
    df.set_attributes(&attrs);
    df
}

#[test]
fn subtotal_accepts_the_string_enum_and_does_not_panic() {
    let xml = r#"<dataField name="Player Activities " fld="3" subtotal="count" baseField="0" baseItem="0"/>"#;
    let df = read_data_field(xml);
    assert_eq!(df.subtotal(), "count", "the enum NAME must survive verbatim");
    assert_eq!(df.name(), "Player Activities ");
    assert_eq!(df.fie_id(), 3);
}

#[test]
fn subtotal_handles_every_aggregation_name() {
    for f in ["average", "count", "countNums", "max", "min", "product", "stdDev", "stdDevp", "sum", "var", "varp"] {
        let xml = format!(r#"<dataField fld="0" subtotal="{f}"/>"#);
        let df = read_data_field(&xml);
        assert_eq!(df.subtotal(), f, "aggregation {f} must survive");
    }
}

#[test]
fn absent_subtotal_is_omitted_on_write_not_emitted_empty() {
    let mut out = String::new();
    DataField::default().write_to(&mut out);
    assert!(!out.contains("subtotal"), "absent subtotal must be omitted, got: {out}");

    let mut out2 = String::new();
    let mut df = DataField::default();
    df.set_subtotal("count");
    df.write_to(&mut out2);
    assert!(out2.contains(r#"subtotal="count""#), "present subtotal must be written, got: {out2}");
}

#[test]
fn data_field_writes_every_attribute() {
    let mut df = DataField::default();
    df.set_name("A & \"B\"").set_fie_id(2).set_base_fie_id(-1).set_base_item(1048832);
    let mut out = String::new();
    df.write_to(&mut out);
    assert_eq!(out, r#"<dataField name="A &amp; &quot;B&quot;" fld="2" baseField="-1" baseItem="1048832"/>"#);
    assert_eq!(df.get_name(), "A & \"B\"");
    assert_eq!(df.get_fie_id(), 2);
    assert_eq!(df.base_fie_id(), -1);
    assert_eq!(df.get_base_fie_id(), -1);
    assert_eq!(df.base_item(), 1048832);
    assert_eq!(df.get_base_item(), 1048832);
    assert_eq!(df.get_subtotal(), "");
}

#[test]
fn data_field_numbers_that_do_not_read_are_left_alone() {
    let df = read_data_field(r#"<dataField fld="x" baseField="-2" baseItem="-1"/>"#);
    assert_eq!(df.fie_id(), 0);
    assert_eq!(df.base_fie_id(), -2);
    assert_eq!(df.base_item(), 0);
}
