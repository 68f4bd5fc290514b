use umya_spreadsheet::column::Column;
use umya_spreadsheet::styles::{Fill, PatternFill, PatternValues, Style, Stylesheet};
use umya_spreadsheet::xml::{get_attribute, tag_attributes};

fn read_col(attributes: &str) -> Column<f64> {
    let content = format!("col {attributes}");
    let attrs = tag_attributes(&content, 3);
    let mut column = Column::new(8.38f64);
    let width = get_attribute(&attrs, "width").and_then(|w| w.parse::<f64>().ok());
    column.set_attributes(&attrs, width, &Stylesheet { cell_styles: vec![] });
    column
}

#[test]
fn custom_width_reports_whether_the_width_was_authored() {
    assert!(
        read_col(r#"min="1" max="1" width="18.17" customWidth="true""#).custom_width(),
        "an authored width is marked custom"
    );
    assert!(
        !read_col(r#"min="1" max="16384" width="10.83" customWidth="false""#).custom_width(),
        "a span carrying the sheet default is not custom"
    );
    assert!(
        !read_col(r#"min="1" max="1" width="18.17""#).custom_width(),
        "absent from the XML it reads false, matching the OOXML default"
    );
}

#[test]
fn reading_custom_width_leaves_the_other_attributes_alone() {
    let column = read_col(r#"min="1" max="1" width="18.17" customWidth="true" hidden="true""#);
    assert!((column.width() - 18.17).abs() < 1e-9);
    assert!(column.hidden());
    assert!(column.custom_width());
}

#[test]
fn set_attributes_reads_flags_without_the_width() {
    let attrs = tag_attributes(r#"col hidden="1" bestFit="true" customWidth="0""#, 3);
    let mut column = Column::new(1.0f64);
    column.set_custom_width(true);
    column.set_attributes(&attrs, None, &Stylesheet { cell_styles: vec![] });
    assert!(column.hidden());
    assert!(column.best_fit());
    assert!(!column.custom_width());
    assert_eq!(*column.width(), 1.0);
}

#[test]
fn set_attributes_takes_the_style_from_the_stylesheet() {
    let solid = Style { font: None, fill: Some(Fill { pattern_fill: Some(PatternFill { pattern_type: PatternValues::Solid }) }) };
    let sheet = Stylesheet { cell_styles: vec![Style::default(), solid] };
    let mut column = Column::new(1.0f64);
    column.set_attributes(&tag_attributes(r#"col style="1""#, 3), None, &sheet);
    assert_eq!(*column.style(), solid);
    assert!(column.has_style());
    column.set_attributes(&tag_attributes(r#"col style="7""#, 3), Some(2.5), &sheet);
    assert_eq!(*column.width(), 2.5);
    assert!(!column.custom_width(), "reading a width does not mark it authored");
    assert_eq!(*column.style(), Style::default(), "a missing cell style reads as the default");
    assert!(!column.has_style());
}

#[test]
fn set_width_marks_the_column_width_as_authored() {
    let mut column = Column::new(8.38f64);
    assert!(!column.custom_width());
    column.set_width(24.0);
    assert!(column.custom_width());
    assert_eq!(*column.get_width(), 24.0);
    column.set_width(24.0).set_custom_width(false);
    assert!(!column.custom_width());
}

#[test]
fn column_getters_and_setters() {
    let mut column = Column::new(8.38f64);
    assert_eq!(column.col_num(), 0);
    column.set_col_num(3).set_hidden(true).set_best_fit(true).set_auto_width(true);
    assert_eq!(column.col_num(), 3);
    assert_eq!(column.get_col_num(), 3);
    assert!(column.hidden() && column.get_hidden());
    assert!(column.best_fit() && column.get_best_fit());
    assert!(column.auto_width() && column.get_auto_width());
    assert!(!column.has_style());
    column.style_mut().set_fill(Fill::default());
    assert!(column.has_style());
    assert_eq!(column.get_style().fill(), Some(Fill::default()));
    column.get_style_mut().fill = None;
    column.set_style(Style::default());
    assert!(!column.has_style());
}

#[test]
fn hash_codes_separate_columns_that_differ_only_in_custom_width() {
    let mut a = Column::new(24.0f64);
    a.set_width(24.0);
    let mut b = Column::new(24.0f64);
    b.set_width(24.0).set_custom_width(false);
    let mut c = Column::new(24.0f64);
    c.set_width(24.0);
    assert_ne!(a.hash_code("24"), b.hash_code("24"));
    assert_eq!(a.hash_code("24"), c.hash_code("24"));
    assert_eq!(a.get_hash_code("24"), c.hash_code("24"));
    let h = a.hash_code("24");
    assert_eq!(h.len(), 32);
    assert!(h.chars().all(|ch| ch.is_ascii_hexdigit()));
    assert_ne!(h, "24101");
}

#[test]
fn adjustment_moves_columns_at_or_after_the_root() {
    let mut column = Column::new(1.0f64);
    column.set_col_num(5);
    column.adjustment_insert_value(5, 3);
    assert_eq!(column.col_num(), 8);
    assert!(!column.is_remove_value(5, 3));
    column.adjustment_remove_value(5, 3);
    assert_eq!(column.col_num(), 5);
    assert!(column.is_remove_value(5, 3));
    assert!(column.is_remove_value(3, 3));
    assert!(!column.is_remove_value(2, 3));
    column.adjustment_insert_value(6, 10);
    assert_eq!(column.col_num(), 5, "a column before the root stays");
}
