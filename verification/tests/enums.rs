use umya_spreadsheet::enums::{OrientationValues, TextWrappingValues};

#[test]
fn text_wrapping_values_round_trip() {
    assert_eq!(TextWrappingValues::default(), TextWrappingValues::NoWrapping);
    for v in [TextWrappingValues::NoWrapping, TextWrappingValues::Square] {
        assert_eq!(TextWrappingValues::from_str(v.value_string()), Ok(v));
        assert_eq!(v.value_string().parse::<TextWrappingValues>(), Ok(v));
    }
    assert_eq!(TextWrappingValues::NoWrapping.value_string(), "none");
    assert_eq!(TextWrappingValues::Square.value_string(), "square");
    assert_eq!(TextWrappingValues::from_str("Square"), Err(()));
    assert_eq!(TextWrappingValues::from_str(""), Err(()));
}

#[test]
fn orientation_values_round_trip() {
    assert_eq!(OrientationValues::default(), OrientationValues::MaxMin);
    for v in [OrientationValues::MaxMin, OrientationValues::MinMax] {
        assert_eq!(OrientationValues::from_str(v.value_string()), Ok(v));
    }
    assert_eq!(OrientationValues::MaxMin.value_string(), "maxMin");
    assert_eq!(OrientationValues::MinMax.value_string(), "minMax");
    assert_eq!(OrientationValues::from_str("maxmin"), Err(()));
}
