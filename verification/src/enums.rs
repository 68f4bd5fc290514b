//! Enumerated attribute values and their spellings in the file format.
use vstd::prelude::*;
use crate::text::text_equals;

verus! {

/// `ST_TextWrappingType` of a drawing: how text wraps around a shape.
#[derive(Clone, Copy, Debug, PartialEq, Eq, Structural)]
pub enum TextWrappingValues {
    NoWrapping,
    Square,
}

/// The spelling of each text-wrapping value.
pub open spec fn text_wrapping_text(v: TextWrappingValues) -> Seq<char> {
    match v {
        TextWrappingValues::NoWrapping => seq!['n', 'o', 'n', 'e'],
        TextWrappingValues::Square => seq!['s', 'q', 'u', 'a', 'r', 'e'],
    }
}

/// The text-wrapping value a spelling names, if any.
pub open spec fn text_wrapping_of(s: Seq<char>) -> Option<TextWrappingValues> {
    if s == text_wrapping_text(TextWrappingValues::NoWrapping) {
        Some(TextWrappingValues::NoWrapping)
    } else if s == text_wrapping_text(TextWrappingValues::Square) {
        Some(TextWrappingValues::Square)
    } else {
        None
    }
}

impl Default for TextWrappingValues {
    fn default() -> (r: Self)
        ensures
            r == TextWrappingValues::NoWrapping,
    {
        TextWrappingValues::NoWrapping
    }
}

impl TextWrappingValues {
    pub fn value_string(&self) -> (r: &'static str)
        ensures
            r@ == text_wrapping_text(*self),
    {
        proof {
            reveal_strlit("none");
            reveal_strlit("square");
        }
        match self {
            TextWrappingValues::NoWrapping => "none",
            TextWrappingValues::Square => "square",
        }
    }

    /// Reads a spelling; any other text is refused with `Err(())`.
    pub fn from_str(input: &str) -> (r: Result<Self, ()>)
        ensures
            match text_wrapping_of(input@) {
                Some(v) => r == Ok::<Self, ()>(v),
                None => r is Err,
            },
    {
        proof {
            reveal_strlit("none");
            reveal_strlit("square");
            assert("none"@ =~= text_wrapping_text(TextWrappingValues::NoWrapping));
            assert("square"@ =~= text_wrapping_text(TextWrappingValues::Square));
        }
        if text_equals(input, "none") {
            Ok(TextWrappingValues::NoWrapping)
        } else if text_equals(input, "square") {
            Ok(TextWrappingValues::Square)
        } else {
            Err(())
        }
    }
}

impl core::str::FromStr for TextWrappingValues {
    type Err = ();

    fn from_str(input: &str) -> (r: Result<Self, ()>)
        ensures
            match text_wrapping_of(input@) {
                Some(v) => r == Ok::<Self, ()>(v),
                None => r is Err,
            },
    {
        TextWrappingValues::from_str(input)
    }
}

/// `ST_Orientation` of a chart axis.
#[derive(Clone, Copy, Debug, PartialEq, Eq, Structural)]
pub enum OrientationValues {
    MaxMin,
    MinMax,
}

/// The spelling of each orientation value.
pub open spec fn orientation_text(v: OrientationValues) -> Seq<char> {
    match v {
        OrientationValues::MaxMin => seq!['m', 'a', 'x', 'M', 'i', 'n'],
        OrientationValues::MinMax => seq!['m', 'i', 'n', 'M', 'a', 'x'],
    }
}

/// The orientation value a spelling names, if any.
pub open spec fn orientation_of(s: Seq<char>) -> Option<OrientationValues> {
    if s == orientation_text(OrientationValues::MaxMin) {
        Some(OrientationValues::MaxMin)
    } else if s == orientation_text(OrientationValues::MinMax) {
        Some(OrientationValues::MinMax)
    } else {
        None
    }
}

impl Default for OrientationValues {
    fn default() -> (r: Self)
        ensures
            r == OrientationValues::MaxMin,
    {
        OrientationValues::MaxMin
    }
}

impl OrientationValues {
    pub fn value_string(&self) -> (r: &'static str)
        ensures
            r@ == orientation_text(*self),
    {
        proof {
            reveal_strlit("maxMin");
            reveal_strlit("minMax");
        }
        match self {
            OrientationValues::MaxMin => "maxMin",
            OrientationValues::MinMax => "minMax",
        }
    }

    /// Reads a spelling; any other text is refused with `Err(())`.
    pub fn from_str(input: &str) -> (r: Result<Self, ()>)
        ensures
            match orientation_of(input@) {
                Some(v) => r == Ok::<Self, ()>(v),
                None => r is Err,
            },
    {
        proof {
            reveal_strlit("maxMin");
            reveal_strlit("minMax");
            assert("maxMin"@ =~= orientation_text(OrientationValues::MaxMin));
            assert("minMax"@ =~= orientation_text(OrientationValues::MinMax));
        }
        if text_equals(input, "maxMin") {
            Ok(OrientationValues::MaxMin)
        } else if text_equals(input, "minMax") {
            Ok(OrientationValues::MinMax)
        } else {
            Err(())
        }
    }
}

impl core::str::FromStr for OrientationValues {
    type Err = ();

    fn from_str(input: &str) -> (r: Result<Self, ()>)
        ensures
            match orientation_of(input@) {
                Some(v) => r == Ok::<Self, ()>(v),
                None => r is Err,
            },
    {
        OrientationValues::from_str(input)
    }
}

/// Each text-wrapping value reads back from its own spelling, and the spellings differ.
pub proof fn law_text_wrapping_round_trip(v: TextWrappingValues)
    ensures
        text_wrapping_of(text_wrapping_text(v)) == Some(v),
{
    assert(text_wrapping_text(TextWrappingValues::NoWrapping).len() != text_wrapping_text(
        TextWrappingValues::Square,
    ).len());
}

/// A spelling that reads as a text-wrapping value is that value's spelling.
pub proof fn law_text_wrapping_spelling_exact(s: Seq<char>)
    ensures
        text_wrapping_of(s) matches Some(v) ==> text_wrapping_text(v) == s,
{
}

/// Each orientation value reads back from its own spelling, and the spellings differ.
pub proof fn law_orientation_round_trip(v: OrientationValues)
    ensures
        orientation_of(orientation_text(v)) == Some(v),
{
    assert(orientation_text(OrientationValues::MaxMin)[1] != orientation_text(
        OrientationValues::MinMax,
    )[1]);
}

/// A spelling that reads as an orientation value is that value's spelling.
pub proof fn law_orientation_spelling_exact(s: Seq<char>)
    ensures
        orientation_of(s) matches Some(v) ==> orientation_text(v) == s,
{
}

} // verus!
