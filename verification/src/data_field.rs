//! A data field of a pivot table (`<dataField>`).
use vstd::prelude::*;
use crate::decimal::{decimal, parse_i32_spec, parse_u32_spec, signed_decimal};
use crate::values::{
    i32_or_zero, law_i32_text_round_trip, law_u32_text_round_trip, text_or_empty, u32_or_zero,
    Int32Value, StringValue, UInt32Value,
};
use crate::xml::{attribute_value, get_attribute, start_tag_text, write_start_tag};

verus! {

#[derive(Clone, Debug)]
pub struct DataField {
    name: StringValue,
    fie_id: UInt32Value,
    base_fie_id: Int32Value,
    base_item: UInt32Value,
    /// `ST_DataConsolidateFunction`, a text enum (`sum`, `count`, `average`, ...); it is
    /// absent from the file when the aggregation is `sum`.
    subtotal: StringValue,
}

/// What a data field holds.
pub struct DataFieldView {
    pub name: Option<Seq<char>>,
    pub fie_id: Option<u32>,
    pub base_fie_id: Option<i32>,
    pub base_item: Option<u32>,
    pub subtotal: Option<Seq<char>>,
}

impl View for DataField {
    type V = DataFieldView;

    closed spec fn view(&self) -> DataFieldView {
        DataFieldView {
            name: self.name@,
            fie_id: self.fie_id@,
            base_fie_id: self.base_fie_id@,
            base_item: self.base_item@,
            subtotal: self.subtotal@,
        }
    }
}

/// A text attribute as read from a tag: the text when present, the old value otherwise.
pub open spec fn read_text(attrs: Seq<(Seq<char>, Seq<char>)>, key: Seq<char>, old: Option<Seq<char>>) -> Option<Seq<char>> {
    match attribute_value(attrs, key) {
        Some(v) => Some(v),
        None => old,
    }
}

/// An unsigned attribute as read from a tag: its value when present and decimal,
/// the old value otherwise.
pub open spec fn read_u32(attrs: Seq<(Seq<char>, Seq<char>)>, key: Seq<char>, old: Option<u32>) -> Option<u32> {
    match attribute_value(attrs, key) {
        Some(v) => match parse_u32_spec(v) {
            Some(x) => Some(x),
            None => old,
        },
        None => old,
    }
}

/// A signed attribute as read from a tag: its value when present and decimal,
/// the old value otherwise.
pub open spec fn read_i32(attrs: Seq<(Seq<char>, Seq<char>)>, key: Seq<char>, old: Option<i32>) -> Option<i32> {
    match attribute_value(attrs, key) {
        Some(v) => match parse_i32_spec(v) {
            Some(x) => Some(x),
            None => old,
        },
        None => old,
    }
}

/// A data field after reading the attributes of its tag.
pub open spec fn data_field_read(attrs: Seq<(Seq<char>, Seq<char>)>, old: DataFieldView) -> DataFieldView {
    DataFieldView {
        name: read_text(attrs, "name"@, old.name),
        fie_id: read_u32(attrs, "fld"@, old.fie_id),
        base_fie_id: read_i32(attrs, "baseField"@, old.base_fie_id),
        base_item: read_u32(attrs, "baseItem"@, old.base_item),
        subtotal: read_text(attrs, "subtotal"@, old.subtotal),
    }
}

/// The attributes a data field is written with. `subtotal` comes last and only when
/// present: an empty `subtotal=""` is not a valid aggregation.
pub open spec fn data_field_attributes(v: DataFieldView) -> Seq<(Seq<char>, Seq<char>)> {
    seq![
        ("name"@, text_or_empty(v.name)),
        ("fld"@, decimal(u32_or_zero(v.fie_id) as nat)),
        ("baseField"@, signed_decimal(i32_or_zero(v.base_fie_id) as int)),
        ("baseItem"@, decimal(u32_or_zero(v.base_item) as nat)),
    ] + match v.subtotal {
        Some(s) => seq![("subtotal"@, s)],
        None => Seq::empty(),
    }
}

impl Default for DataField {
    fn default() -> (r: Self)
        ensures
            r@ == (DataFieldView {
                name: None,
                fie_id: None,
                base_fie_id: None,
                base_item: None,
                subtotal: None,
            }),
    {
        DataField {
            name: StringValue::new(),
            fie_id: UInt32Value::default(),
            base_fie_id: Int32Value::default(),
            base_item: UInt32Value::default(),
            subtotal: StringValue::new(),
        }
    }
}

impl DataField {
    pub fn name(&self) -> (r: &str)
        ensures
            r@ == text_or_empty(self@.name),
    {
        self.name.value_str()
    }

    pub fn get_name(&self) -> (r: &str)
        ensures
            r@ == text_or_empty(self@.name),
    {
        self.name()
    }

    pub fn set_name(&mut self, value: &str) -> (r: &mut Self)
        ensures
            r@ == (DataFieldView { name: Some(value@), ..old(self)@ }),
            *final(self) == *final(r),
    {
        self.name.set_value(value);
        self
    }

    pub fn fie_id(&self) -> (r: u32)
        ensures
            r == u32_or_zero(self@.fie_id),
    {
        self.fie_id.value()
    }

    pub fn get_fie_id(&self) -> (r: u32)
        ensures
            r == u32_or_zero(self@.fie_id),
    {
        self.fie_id()
    }

    pub fn set_fie_id(&mut self, value: u32) -> (r: &mut Self)
        ensures
            r@ == (DataFieldView { fie_id: Some(value), ..old(self)@ }),
            *final(self) == *final(r),
    {
        self.fie_id.set_value(value);
        self
    }

    pub fn base_fie_id(&self) -> (r: i32)
        ensures
            r == i32_or_zero(self@.base_fie_id),
    {
        self.base_fie_id.value()
    }

    pub fn get_base_fie_id(&self) -> (r: i32)
        ensures
            r == i32_or_zero(self@.base_fie_id),
    {
        self.base_fie_id()
    }

    pub fn set_base_fie_id(&mut self, value: i32) -> (r: &mut Self)
        ensures
            r@ == (DataFieldView { base_fie_id: Some(value), ..old(self)@ }),
            *final(self) == *final(r),
    {
        self.base_fie_id.set_value(value);
        self
    }

    pub fn base_item(&self) -> (r: u32)
        ensures
            r == u32_or_zero(self@.base_item),
    {
        self.base_item.value()
    }

    pub fn get_base_item(&self) -> (r: u32)
        ensures
            r == u32_or_zero(self@.base_item),
    {
        self.base_item()
    }

    pub fn set_base_item(&mut self, value: u32) -> (r: &mut Self)
        ensures
            r@ == (DataFieldView { base_item: Some(value), ..old(self)@ }),
            *final(self) == *final(r),
    {
        self.base_item.set_value(value);
        self
    }

    /// The aggregation's name (`""` when absent, which means `sum`).
    pub fn subtotal(&self) -> (r: &str)
        ensures
            r@ == text_or_empty(self@.subtotal),
    {
        self.subtotal.value_str()
    }

    pub fn get_subtotal(&self) -> (r: &str)
        ensures
            r@ == text_or_empty(self@.subtotal),
    {
        self.subtotal()
    }

    pub fn set_subtotal(&mut self, value: &str) -> (r: &mut Self)
        ensures
            r@ == (DataFieldView { subtotal: Some(value@), ..old(self)@ }),
            *final(self) == *final(r),
    {
        self.subtotal.set_value(value);
        self
    }

    /// Reads the attributes of a `<dataField>` tag: `name`, `fld`, `baseField`,
    /// `baseItem` and `subtotal`. The subtotal is kept as text, whatever it says; a
    /// number that does not read leaves its field as it was.
    pub fn set_attributes(&mut self, attrs: &Vec<(String, String)>)
        ensures
            final(self)@ == data_field_read(attrs.deep_view(), old(self)@),
    {
        if let Some(v) = get_attribute(attrs, "name") {
            self.name.set_value(v.as_str());
        }
        if let Some(v) = get_attribute(attrs, "fld") {
            self.fie_id.set_value_string(v.as_str());
        }
        if let Some(v) = get_attribute(attrs, "baseField") {
            self.base_fie_id.set_value_string(v.as_str());
        }
        if let Some(v) = get_attribute(attrs, "baseItem") {
            self.base_item.set_value_string(v.as_str());
        }
        if let Some(v) = get_attribute(attrs, "subtotal") {
            self.subtotal.set_value(v.as_str());
        }
    }

    /// Appends the `<dataField .../>` element.
    pub fn write_to(&self, out: &mut String)
        ensures
            final(out)@ == old(out)@ + start_tag_text("dataField"@, data_field_attributes(self@), true),
    {
        let mut attrs: Vec<(String, String)> = Vec::new();
        attrs.push((String::from_str("name"), String::from_str(self.name.value_str())));
        attrs.push((String::from_str("fld"), self.fie_id.value_string()));
        attrs.push((String::from_str("baseField"), self.base_fie_id.value_string()));
        attrs.push((String::from_str("baseItem"), self.base_item.value_string()));
        if self.subtotal.has_value() {
            attrs.push((String::from_str("subtotal"), String::from_str(self.subtotal.value_str())));
        }
        assert(attrs.deep_view() =~= data_field_attributes(self@));
        write_start_tag(out, "dataField", &attrs, true);
    }
}

/// Reading back the attributes a data field is written with gives back its name's
/// text and its numbers; its subtotal is given back when present and, when absent, is
/// not written, so whatever the reader held stays.
pub proof fn law_written_attributes_read_back(v: DataFieldView, other: DataFieldView)
    ensures
        ({
            let r = data_field_read(data_field_attributes(v), other);
            &&& r.subtotal == (match v.subtotal {
                Some(t) => Some(t),
                None => other.subtotal,
            })
            &&& r.name == Some(text_or_empty(v.name))
            &&& r.fie_id == Some(u32_or_zero(v.fie_id))
            &&& r.base_fie_id == Some(i32_or_zero(v.base_fie_id))
            &&& r.base_item == Some(u32_or_zero(v.base_item))
        }),
{
    reveal_strlit("name");
    reveal_strlit("fld");
    reveal_strlit("baseField");
    reveal_strlit("baseItem");
    reveal_strlit("subtotal");
    let a = data_field_attributes(v);
    law_u32_text_round_trip(u32_or_zero(v.fie_id));
    law_u32_text_round_trip(u32_or_zero(v.base_item));
    law_i32_text_round_trip(i32_or_zero(v.base_fie_id));
    assert("name"@.len() != "fld"@.len());
    assert("name"@ != "fld"@);
    assert("name"@.len() != "baseField"@.len());
    assert("name"@ != "baseField"@);
    assert("name"@.len() != "baseItem"@.len());
    assert("name"@ != "baseItem"@);
    assert("name"@.len() != "subtotal"@.len());
    assert("name"@ != "subtotal"@);
    assert("fld"@.len() != "baseField"@.len());
    assert("fld"@ != "baseField"@);
    assert("fld"@.len() != "baseItem"@.len());
    assert("fld"@ != "baseItem"@);
    assert("fld"@.len() != "subtotal"@.len());
    assert("fld"@ != "subtotal"@);
    assert("baseField"@.len() != "baseItem"@.len());
    assert("baseField"@ != "baseItem"@);
    assert("baseField"@.len() != "subtotal"@.len());
    assert("baseField"@ != "subtotal"@);
    assert("baseItem"@[0] != "subtotal"@[0]);
    assert("baseItem"@ != "subtotal"@);
    let a1 = a.drop_first();
    let a2 = a1.drop_first();
    let a3 = a2.drop_first();
    let rest = a3.drop_first();
    assert(a[0].0 == "name"@);
    assert(a1[0].0 == "fld"@);
    assert(a2[0].0 == "baseField"@);
    assert(a3[0].0 == "baseItem"@);
    match v.subtotal {
        Some(s) => {
            assert(rest =~= seq![("subtotal"@, s)]);
            assert(rest.drop_first() =~= Seq::<(Seq<char>, Seq<char>)>::empty());
        },
        None => {
            assert(rest =~= Seq::<(Seq<char>, Seq<char>)>::empty());
        },
    }
    assert(attribute_value(rest, "subtotal"@) == v.subtotal);
    assert(attribute_value(a3, "subtotal"@) == v.subtotal);
    assert(attribute_value(a2, "subtotal"@) == v.subtotal);
    assert(attribute_value(a1, "subtotal"@) == v.subtotal);
    assert(attribute_value(a, "subtotal"@) == v.subtotal);
    assert(attribute_value(a, "name"@) == Some(text_or_empty(v.name)));
    assert(attribute_value(a1, "fld"@) == Some(decimal(u32_or_zero(v.fie_id) as nat)));
    assert(attribute_value(a, "fld"@) == Some(decimal(u32_or_zero(v.fie_id) as nat)));
    assert(attribute_value(a2, "baseField"@) == Some(signed_decimal(i32_or_zero(v.base_fie_id) as int)));
    assert(attribute_value(a1, "baseField"@) == Some(signed_decimal(i32_or_zero(v.base_fie_id) as int)));
    assert(attribute_value(a, "baseField"@) == Some(signed_decimal(i32_or_zero(v.base_fie_id) as int)));
    assert(attribute_value(a3, "baseItem"@) == Some(decimal(u32_or_zero(v.base_item) as nat)));
    assert(attribute_value(a2, "baseItem"@) == Some(decimal(u32_or_zero(v.base_item) as nat)));
    assert(attribute_value(a1, "baseItem"@) == Some(decimal(u32_or_zero(v.base_item) as nat)));
    assert(attribute_value(a, "baseItem"@) == Some(decimal(u32_or_zero(v.base_item) as nat)));
    let r = data_field_read(a, other);
    assert(r.name == Some(text_or_empty(v.name)));
    assert(r.fie_id == Some(u32_or_zero(v.fie_id)));
    assert(r.base_fie_id == Some(i32_or_zero(v.base_fie_id)));
    assert(r.base_item == Some(u32_or_zero(v.base_item)));
}

} // verus!
