//! Optional attribute values: each holds a value that may be absent, reads an
//! absent value as its type's default, and writes itself as text.
use vstd::prelude::*;
use crate::decimal::{
    decimal, format_signed, format_unsigned, lemma_parse_signed_decimal, lemma_parse_unsigned_decimal,
    parse_i16, parse_i16_spec, parse_i32, parse_i32_spec, parse_u32, parse_u32_spec, signed_decimal,
};
use crate::text::text_equals;

verus! {

/// What a hash string is for an absent value.
pub open spec fn empty_hash_text() -> Seq<char> {
    seq!['e', 'm', 'p', 't', 'y', '!', '!']
}

fn empty_hash_string() -> (s: String)
    ensures
        s@ == empty_hash_text(),
{
    proof {
        reveal_strlit("empty!!");
    }
    String::from_str("empty!!")
}

// ---------------------------------------------------------------- UInt32Value

#[derive(Clone, Copy, Debug, PartialEq, Eq, PartialOrd, Ord, Structural)]
pub struct UInt32Value {
    value: Option<u32>,
}

impl View for UInt32Value {
    type V = Option<u32>;

    closed spec fn view(&self) -> Option<u32> {
        self.value
    }
}

pub open spec fn u32_or_zero(v: Option<u32>) -> u32 {
    match v {
        Some(x) => x,
        None => 0,
    }
}

impl Default for UInt32Value {
    fn default() -> (r: Self)
        ensures
            r@ is None,
    {
        UInt32Value { value: None }
    }
}

impl UInt32Value {
    /// The value, or 0 when absent.
    pub fn value(&self) -> (r: u32)
        ensures
            r == u32_or_zero(self@),
    {
        match self.value {
            Some(v) => v,
            None => 0,
        }
    }

    pub fn get_value(&self) -> (r: u32)
        ensures
            r == u32_or_zero(self@),
    {
        self.value()
    }

    /// The value's decimal text (`"0"` when absent).
    pub fn value_string(&self) -> (r: String)
        ensures
            r@ == decimal(u32_or_zero(self@) as nat),
    {
        format_unsigned(self.value() as u64)
    }

    pub fn get_value_string(&self) -> (r: String)
        ensures
            r@ == decimal(u32_or_zero(self@) as nat),
    {
        self.value_string()
    }

    pub fn set_value(&mut self, value: u32) -> (r: &mut Self)
        ensures
            r@ == Some(value),
            *final(self) == *final(r),
    {
        self.value = Some(value);
        self
    }

    /// Reads `value` as a decimal `u32`; text that does not read as one leaves the
    /// value as it was.
    pub fn set_value_string(&mut self, value: &str) -> (r: &mut Self)
        ensures
            r@ == (match parse_u32_spec(value@) {
                Some(v) => Some(v),
                None => old(self)@,
            }),
            *final(self) == *final(r),
    {
        if let Some(v) = parse_u32(value) {
            self.value = Some(v);
        }
        self
    }

    pub fn remove_value(&mut self) -> (r: &mut Self)
        ensures
            r@ is None,
            *final(self) == *final(r),
    {
        self.value = None;
        self
    }

    pub fn has_value(&self) -> (r: bool)
        ensures
            r == self@ is Some,
    {
        self.value.is_some()
    }

    /// The decimal text when a value is present, `"empty!!"` otherwise.
    pub fn hash_string(&self) -> (r: String)
        ensures
            r@ == (match self@ {
                Some(v) => decimal(v as nat),
                None => empty_hash_text(),
            }),
    {
        if self.has_value() {
            return self.value_string();
        }
        empty_hash_string()
    }

    pub fn get_hash_string(&self) -> (r: String)
        ensures
            r@ == (match self@ {
                Some(v) => decimal(v as nat),
                None => empty_hash_text(),
            }),
    {
        self.hash_string()
    }
}

// ---------------------------------------------------------------- Int16Value

#[derive(Clone, Copy, Debug, PartialEq, Eq, Structural)]
pub struct Int16Value {
    value: Option<i16>,
}

impl View for Int16Value {
    type V = Option<i16>;

    closed spec fn view(&self) -> Option<i16> {
        self.value
    }
}

pub open spec fn i16_or_zero(v: Option<i16>) -> i16 {
    match v {
        Some(x) => x,
        None => 0,
    }
}

impl Default for Int16Value {
    fn default() -> (r: Self)
        ensures
            r@ is None,
    {
        Int16Value { value: None }
    }
}

impl Int16Value {
    /// The value, or 0 when absent.
    pub fn value(&self) -> (r: i16)
        ensures
            r == i16_or_zero(self@),
    {
        match self.value {
            Some(v) => v,
            None => 0,
        }
    }

    pub fn get_value(&self) -> (r: i16)
        ensures
            r == i16_or_zero(self@),
    {
        self.value()
    }

    /// The value's decimal text (`"0"` when absent).
    pub fn value_string(&self) -> (r: String)
        ensures
            r@ == signed_decimal(i16_or_zero(self@) as int),
    {
        format_signed(self.value() as i64)
    }

    pub fn get_value_string(&self) -> (r: String)
        ensures
            r@ == signed_decimal(i16_or_zero(self@) as int),
    {
        self.value_string()
    }

    pub fn set_value(&mut self, value: i16) -> (r: &mut Self)
        ensures
            r@ == Some(value),
            *final(self) == *final(r),
    {
        self.value = Some(value);
        self
    }

    /// Reads `value` as a decimal `i16`; text that does not read as one leaves the
    /// value as it was.
    pub fn set_value_string(&mut self, value: &str) -> (r: &mut Self)
        ensures
            r@ == (match parse_i16_spec(value@) {
                Some(v) => Some(v),
                None => old(self)@,
            }),
            *final(self) == *final(r),
    {
        if let Some(v) = parse_i16(value) {
            self.value = Some(v);
        }
        self
    }

    pub fn has_value(&self) -> (r: bool)
        ensures
            r == self@ is Some,
    {
        self.value.is_some()
    }

    /// The decimal text when a value is present, `"empty!!"` otherwise.
    pub fn hash_string(&self) -> (r: String)
        ensures
            r@ == (match self@ {
                Some(v) => signed_decimal(v as int),
                None => empty_hash_text(),
            }),
    {
        if self.has_value() {
            return self.value_string();
        }
        empty_hash_string()
    }

    pub fn get_hash_string(&self) -> (r: String)
        ensures
            r@ == (match self@ {
                Some(v) => signed_decimal(v as int),
                None => empty_hash_text(),
            }),
    {
        self.hash_string()
    }
}

// ---------------------------------------------------------------- Int32Value

#[derive(Clone, Copy, Debug, PartialEq, Eq, Structural)]
pub struct Int32Value {
    value: Option<i32>,
}

impl View for Int32Value {
    type V = Option<i32>;

    closed spec fn view(&self) -> Option<i32> {
        self.value
    }
}

pub open spec fn i32_or_zero(v: Option<i32>) -> i32 {
    match v {
        Some(x) => x,
        None => 0,
    }
}

impl Default for Int32Value {
    fn default() -> (r: Self)
        ensures
            r@ is None,
    {
        Int32Value { value: None }
    }
}

impl Int32Value {
    /// The value, or 0 when absent.
    pub fn value(&self) -> (r: i32)
        ensures
            r == i32_or_zero(self@),
    {
        match self.value {
            Some(v) => v,
            None => 0,
        }
    }

    /// The value's decimal text (`"0"` when absent).
    pub fn value_string(&self) -> (r: String)
        ensures
            r@ == signed_decimal(i32_or_zero(self@) as int),
    {
        format_signed(self.value() as i64)
    }

    pub fn set_value(&mut self, value: i32) -> (r: &mut Self)
        ensures
            r@ == Some(value),
            *final(self) == *final(r),
    {
        self.value = Some(value);
        self
    }

    /// Reads `value` as a decimal `i32`; text that does not read as one leaves the
    /// value as it was.
    pub fn set_value_string(&mut self, value: &str) -> (r: &mut Self)
        ensures
            r@ == (match parse_i32_spec(value@) {
                Some(v) => Some(v),
                None => old(self)@,
            }),
            *final(self) == *final(r),
    {
        if let Some(v) = parse_i32(value) {
            self.value = Some(v);
        }
        self
    }

    pub fn has_value(&self) -> (r: bool)
        ensures
            r == self@ is Some,
    {
        self.value.is_some()
    }
}

// ---------------------------------------------------------------- BooleanValue

#[derive(Clone, Copy, Debug, PartialEq, Eq, Structural)]
pub struct BooleanValue {
    value: Option<bool>,
}

impl View for BooleanValue {
    type V = Option<bool>;

    closed spec fn view(&self) -> Option<bool> {
        self.value
    }
}

pub open spec fn bool_or_false(v: Option<bool>) -> bool {
    match v {
        Some(x) => x,
        None => false,
    }
}

/// How a boolean attribute is written: `"1"` or `"0"`.
pub open spec fn bool_text(b: bool) -> Seq<char> {
    if b {
        seq!['1']
    } else {
        seq!['0']
    }
}

/// The texts that read as `true`: `"1"` and `"true"`; any other reads as `false`.
pub open spec fn reads_true(s: Seq<char>) -> bool {
    s == seq!['1'] || s == seq!['t', 'r', 'u', 'e']
}

impl Default for BooleanValue {
    fn default() -> (r: Self)
        ensures
            r@ is None,
    {
        BooleanValue { value: None }
    }
}

impl BooleanValue {
    /// The value, or `false` when absent.
    pub fn value(&self) -> (r: bool)
        ensures
            r == bool_or_false(self@),
    {
        match self.value {
            Some(v) => v,
            None => false,
        }
    }

    /// `"1"` or `"0"`.
    pub fn value_string(&self) -> (r: &'static str)
        ensures
            r@ == bool_text(bool_or_false(self@)),
    {
        proof {
            reveal_strlit("1");
            reveal_strlit("0");
        }
        if self.value() {
            "1"
        } else {
            "0"
        }
    }

    pub fn set_value(&mut self, value: bool) -> (r: &mut Self)
        ensures
            r@ == Some(value),
            *final(self) == *final(r),
    {
        self.value = Some(value);
        self
    }

    /// Sets the value to whether `value` is `"1"` or `"true"`.
    pub fn set_value_string(&mut self, value: &str) -> (r: &mut Self)
        ensures
            r@ == Some(reads_true(value@)),
            *final(self) == *final(r),
    {
        proof {
            reveal_strlit("1");
            reveal_strlit("true");
            assert("1"@ =~= seq!['1']);
            assert("true"@ =~= seq!['t', 'r', 'u', 'e']);
        }
        let b = text_equals(value, "1") || text_equals(value, "true");
        self.value = Some(b);
        self
    }

    pub fn has_value(&self) -> (r: bool)
        ensures
            r == self@ is Some,
    {
        self.value.is_some()
    }
}

// ---------------------------------------------------------------- StringValue

#[derive(Clone, Debug, Default)]
pub struct StringValue {
    value: Option<String>,
}

impl View for StringValue {
    type V = Option<Seq<char>>;

    closed spec fn view(&self) -> Option<Seq<char>> {
        match self.value {
            Some(s) => Some(s@),
            None => None,
        }
    }
}

pub open spec fn text_or_empty(v: Option<Seq<char>>) -> Seq<char> {
    match v {
        Some(s) => s,
        None => Seq::empty(),
    }
}

impl StringValue {
    pub fn new() -> (r: Self)
        ensures
            r@ is None,
    {
        StringValue { value: None }
    }

    /// The text, or `""` when absent.
    pub fn value_str(&self) -> (r: &str)
        ensures
            r@ == text_or_empty(self@),
    {
        match &self.value {
            Some(v) => v.as_str(),
            None => {
                proof {
                    reveal_strlit("");
                }
                ""
            },
        }
    }

    pub fn set_value(&mut self, value: &str) -> (r: &mut Self)
        ensures
            r@ == Some(value@),
            *final(self) == *final(r),
    {
        self.value = Some(String::from_str(value));
        self
    }

    pub fn has_value(&self) -> (r: bool)
        ensures
            r == self@ is Some,
    {
        self.value.is_some()
    }
}

/// Reading back the decimal text of a `u32` gives the same `u32`.
pub proof fn law_u32_text_round_trip(v: u32)
    ensures
        parse_u32_spec(decimal(v as nat)) == Some(v),
{
    lemma_parse_unsigned_decimal(v as nat, u32::MAX as int);
}

/// Reading back the decimal text of an `i16` gives the same `i16`.
pub proof fn law_i16_text_round_trip(v: i16)
    ensures
        parse_i16_spec(signed_decimal(v as int)) == Some(v),
{
    lemma_parse_signed_decimal(v as int, i16::MIN as int, i16::MAX as int);
}

/// Reading back the decimal text of an `i32` gives the same `i32`.
pub proof fn law_i32_text_round_trip(v: i32)
    ensures
        parse_i32_spec(signed_decimal(v as int)) == Some(v),
{
    lemma_parse_signed_decimal(v as int, i32::MIN as int, i32::MAX as int);
}

/// A boolean's written text reads back as the same boolean.
pub proof fn law_bool_text_round_trip(b: bool)
    ensures
        reads_true(bool_text(b)) == b,
{
    if !b {
        assert(bool_text(b) != seq!['1']) by {
            assert(bool_text(b)[0] == '0');
        }
        assert(bool_text(b).len() != 4);
    }
}

} // verus!
