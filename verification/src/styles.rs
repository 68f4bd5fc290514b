//! The style parts that this crate's collections hold: colors, fonts, pattern
//! fills, the differential formats that conditional formatting refers to, and the
//! cell styles of a stylesheet.
use vstd::prelude::*;
use crate::decimal::{
    decimal, is_digit, lemma_decimal_digits, lemma_decimal_injective, format_hex_upper, format_unsigned, hex_text, parse_hex_u32, parse_hex_u32_spec, parse_u32,
    parse_u32_spec,
};
use crate::digest::{md5_hash, md5_hex};
use crate::reading::{event_opens, item_read_step, item_step, opens, ItemStep, XmlEventKind};
use crate::text::{lemma_split_at_separator, text_equals};
use crate::xml::{
    attribute_value, end_tag_text, get_attribute, start_tag_text, write_end_tag, write_start_tag,
};

verus! {

/// `ST_PatternType`: the pattern of a pattern fill.
#[derive(Clone, Copy, Debug, PartialEq, Eq, Structural)]
pub enum PatternValues {
    NoPattern,
    Solid,
    MediumGray,
    DarkGray,
    LightGray,
    DarkHorizontal,
    DarkVertical,
    DarkDown,
    DarkUp,
    DarkGrid,
    DarkTrellis,
    LightHorizontal,
    LightVertical,
    LightDown,
    LightUp,
    LightGrid,
    LightTrellis,
    Gray125,
    Gray0625,
}

/// The spelling of each pattern type.
pub open spec fn pattern_text(v: PatternValues) -> Seq<char> {
    match v {
        PatternValues::NoPattern => "none"@,
        PatternValues::Solid => "solid"@,
        PatternValues::MediumGray => "mediumGray"@,
        PatternValues::DarkGray => "darkGray"@,
        PatternValues::LightGray => "lightGray"@,
        PatternValues::DarkHorizontal => "darkHorizontal"@,
        PatternValues::DarkVertical => "darkVertical"@,
        PatternValues::DarkDown => "darkDown"@,
        PatternValues::DarkUp => "darkUp"@,
        PatternValues::DarkGrid => "darkGrid"@,
        PatternValues::DarkTrellis => "darkTrellis"@,
        PatternValues::LightHorizontal => "lightHorizontal"@,
        PatternValues::LightVertical => "lightVertical"@,
        PatternValues::LightDown => "lightDown"@,
        PatternValues::LightUp => "lightUp"@,
        PatternValues::LightGrid => "lightGrid"@,
        PatternValues::LightTrellis => "lightTrellis"@,
        PatternValues::Gray125 => "gray125"@,
        PatternValues::Gray0625 => "gray0625"@,
    }
}

/// The pattern type a spelling names, if any.
pub open spec fn pattern_of(s: Seq<char>) -> Option<PatternValues> {
    if s == "none"@ {
        Some(PatternValues::NoPattern)
    } else if s == "solid"@ {
        Some(PatternValues::Solid)
    } else if s == "mediumGray"@ {
        Some(PatternValues::MediumGray)
    } else if s == "darkGray"@ {
        Some(PatternValues::DarkGray)
    } else if s == "lightGray"@ {
        Some(PatternValues::LightGray)
    } else if s == "darkHorizontal"@ {
        Some(PatternValues::DarkHorizontal)
    } else if s == "darkVertical"@ {
        Some(PatternValues::DarkVertical)
    } else if s == "darkDown"@ {
        Some(PatternValues::DarkDown)
    } else if s == "darkUp"@ {
        Some(PatternValues::DarkUp)
    } else if s == "darkGrid"@ {
        Some(PatternValues::DarkGrid)
    } else if s == "darkTrellis"@ {
        Some(PatternValues::DarkTrellis)
    } else if s == "lightHorizontal"@ {
        Some(PatternValues::LightHorizontal)
    } else if s == "lightVertical"@ {
        Some(PatternValues::LightVertical)
    } else if s == "lightDown"@ {
        Some(PatternValues::LightDown)
    } else if s == "lightUp"@ {
        Some(PatternValues::LightUp)
    } else if s == "lightGrid"@ {
        Some(PatternValues::LightGrid)
    } else if s == "lightTrellis"@ {
        Some(PatternValues::LightTrellis)
    } else if s == "gray125"@ {
        Some(PatternValues::Gray125)
    } else if s == "gray0625"@ {
        Some(PatternValues::Gray0625)
    } else {
        None
    }
}

/// Each pattern reads back from its own spelling, so different patterns are spelled
/// differently, and no spelling is `-`.
pub proof fn law_pattern_round_trip(p: PatternValues)
    ensures
        pattern_of(pattern_text(p)) == Some(p),
        pattern_text(p) != seq!['-'],
{
    reveal_strlit("none");
    reveal_strlit("solid");
    reveal_strlit("mediumGray");
    reveal_strlit("darkGray");
    reveal_strlit("lightGray");
    reveal_strlit("darkHorizontal");
    reveal_strlit("darkVertical");
    reveal_strlit("darkDown");
    reveal_strlit("darkUp");
    reveal_strlit("darkGrid");
    reveal_strlit("darkTrellis");
    reveal_strlit("lightHorizontal");
    reveal_strlit("lightVertical");
    reveal_strlit("lightDown");
    reveal_strlit("lightUp");
    reveal_strlit("lightGrid");
    reveal_strlit("lightTrellis");
    reveal_strlit("gray125");
    reveal_strlit("gray0625");
    assert(pattern_text(p).len() > 1);
    match p {
        PatternValues::NoPattern => {

        },
        PatternValues::Solid => {
            assert("solid"@.len() != "none"@.len());
        },
        PatternValues::MediumGray => {
            assert("mediumGray"@.len() != "none"@.len());
            assert("mediumGray"@.len() != "solid"@.len());
        },
        PatternValues::DarkGray => {
            assert("darkGray"@.len() != "none"@.len());
            assert("darkGray"@.len() != "solid"@.len());
            assert("darkGray"@.len() != "mediumGray"@.len());
        },
        PatternValues::LightGray => {
            assert("lightGray"@.len() != "none"@.len());
            assert("lightGray"@.len() != "solid"@.len());
            assert("lightGray"@.len() != "mediumGray"@.len());
            assert("lightGray"@.len() != "darkGray"@.len());
        },
        PatternValues::DarkHorizontal => {
            assert("darkHorizontal"@.len() != "none"@.len());
            assert("darkHorizontal"@.len() != "solid"@.len());
            assert("darkHorizontal"@.len() != "mediumGray"@.len());
            assert("darkHorizontal"@.len() != "darkGray"@.len());
            assert("darkHorizontal"@.len() != "lightGray"@.len());
        },
        PatternValues::DarkVertical => {
            assert("darkVertical"@.len() != "none"@.len());
            assert("darkVertical"@.len() != "solid"@.len());
            assert("darkVertical"@.len() != "mediumGray"@.len());
            assert("darkVertical"@.len() != "darkGray"@.len());
            assert("darkVertical"@.len() != "lightGray"@.len());
            assert("darkVertical"@.len() != "darkHorizontal"@.len());
        },
        PatternValues::DarkDown => {
            assert("darkDown"@.len() != "none"@.len());
            assert("darkDown"@.len() != "solid"@.len());
            assert("darkDown"@.len() != "mediumGray"@.len());
            assert("darkDown"@[4] != "darkGray"@[4]);
            assert("darkDown"@.len() != "lightGray"@.len());
            assert("darkDown"@.len() != "darkHorizontal"@.len());
            assert("darkDown"@.len() != "darkVertical"@.len());
        },
        PatternValues::DarkUp => {
            assert("darkUp"@.len() != "none"@.len());
            assert("darkUp"@.len() != "solid"@.len());
            assert("darkUp"@.len() != "mediumGray"@.len());
            assert("darkUp"@.len() != "darkGray"@.len());
            assert("darkUp"@.len() != "lightGray"@.len());
            assert("darkUp"@.len() != "darkHorizontal"@.len());
            assert("darkUp"@.len() != "darkVertical"@.len());
            assert("darkUp"@.len() != "darkDown"@.len());
        },
        PatternValues::DarkGrid => {
            assert("darkGrid"@.len() != "none"@.len());
            assert("darkGrid"@.len() != "solid"@.len());
            assert("darkGrid"@.len() != "mediumGray"@.len());
            assert("darkGrid"@[6] != "darkGray"@[6]);
            assert("darkGrid"@.len() != "lightGray"@.len());
            assert("darkGrid"@.len() != "darkHorizontal"@.len());
            assert("darkGrid"@.len() != "darkVertical"@.len());
            assert("darkGrid"@[4] != "darkDown"@[4]);
            assert("darkGrid"@.len() != "darkUp"@.len());
        },
        PatternValues::DarkTrellis => {
            assert("darkTrellis"@.len() != "none"@.len());
            assert("darkTrellis"@.len() != "solid"@.len());
            assert("darkTrellis"@.len() != "mediumGray"@.len());
            assert("darkTrellis"@.len() != "darkGray"@.len());
            assert("darkTrellis"@.len() != "lightGray"@.len());
            assert("darkTrellis"@.len() != "darkHorizontal"@.len());
            assert("darkTrellis"@.len() != "darkVertical"@.len());
            assert("darkTrellis"@.len() != "darkDown"@.len());
            assert("darkTrellis"@.len() != "darkUp"@.len());
            assert("darkTrellis"@.len() != "darkGrid"@.len());
        },
        PatternValues::LightHorizontal => {
            assert("lightHorizontal"@.len() != "none"@.len());
            assert("lightHorizontal"@.len() != "solid"@.len());
            assert("lightHorizontal"@.len() != "mediumGray"@.len());
            assert("lightHorizontal"@.len() != "darkGray"@.len());
            assert("lightHorizontal"@.len() != "lightGray"@.len());
            assert("lightHorizontal"@.len() != "darkHorizontal"@.len());
            assert("lightHorizontal"@.len() != "darkVertical"@.len());
            assert("lightHorizontal"@.len() != "darkDown"@.len());
            assert("lightHorizontal"@.len() != "darkUp"@.len());
            assert("lightHorizontal"@.len() != "darkGrid"@.len());
            assert("lightHorizontal"@.len() != "darkTrellis"@.len());
        },
        PatternValues::LightVertical => {
            assert("lightVertical"@.len() != "none"@.len());
            assert("lightVertical"@.len() != "solid"@.len());
            assert("lightVertical"@.len() != "mediumGray"@.len());
            assert("lightVertical"@.len() != "darkGray"@.len());
            assert("lightVertical"@.len() != "lightGray"@.len());
            assert("lightVertical"@.len() != "darkHorizontal"@.len());
            assert("lightVertical"@.len() != "darkVertical"@.len());
            assert("lightVertical"@.len() != "darkDown"@.len());
            assert("lightVertical"@.len() != "darkUp"@.len());
            assert("lightVertical"@.len() != "darkGrid"@.len());
            assert("lightVertical"@.len() != "darkTrellis"@.len());
            assert("lightVertical"@.len() != "lightHorizontal"@.len());
        },
        PatternValues::LightDown => {
            assert("lightDown"@.len() != "none"@.len());
            assert("lightDown"@.len() != "solid"@.len());
            assert("lightDown"@.len() != "mediumGray"@.len());
            assert("lightDown"@.len() != "darkGray"@.len());
            assert("lightDown"@[5] != "lightGray"@[5]);
            assert("lightDown"@.len() != "darkHorizontal"@.len());
            assert("lightDown"@.len() != "darkVertical"@.len());
            assert("lightDown"@.len() != "darkDown"@.len());
            assert("lightDown"@.len() != "darkUp"@.len());
            assert("lightDown"@.len() != "darkGrid"@.len());
            assert("lightDown"@.len() != "darkTrellis"@.len());
            assert("lightDown"@.len() != "lightHorizontal"@.len());
            assert("lightDown"@.len() != "lightVertical"@.len());
        },
        PatternValues::LightUp => {
            assert("lightUp"@.len() != "none"@.len());
            assert("lightUp"@.len() != "solid"@.len());
            assert("lightUp"@.len() != "mediumGray"@.len());
            assert("lightUp"@.len() != "darkGray"@.len());
            assert("lightUp"@.len() != "lightGray"@.len());
            assert("lightUp"@.len() != "darkHorizontal"@.len());
            assert("lightUp"@.len() != "darkVertical"@.len());
            assert("lightUp"@.len() != "darkDown"@.len());
            assert("lightUp"@.len() != "darkUp"@.len());
            assert("lightUp"@.len() != "darkGrid"@.len());
            assert("lightUp"@.len() != "darkTrellis"@.len());
            assert("lightUp"@.len() != "lightHorizontal"@.len());
            assert("lightUp"@.len() != "lightVertical"@.len());
            assert("lightUp"@.len() != "lightDown"@.len());
        },
        PatternValues::LightGrid => {
            assert("lightGrid"@.len() != "none"@.len());
            assert("lightGrid"@.len() != "solid"@.len());
            assert("lightGrid"@.len() != "mediumGray"@.len());
            assert("lightGrid"@.len() != "darkGray"@.len());
            assert("lightGrid"@[7] != "lightGray"@[7]);
            assert("lightGrid"@.len() != "darkHorizontal"@.len());
            assert("lightGrid"@.len() != "darkVertical"@.len());
            assert("lightGrid"@.len() != "darkDown"@.len());
            assert("lightGrid"@.len() != "darkUp"@.len());
            assert("lightGrid"@.len() != "darkGrid"@.len());
            assert("lightGrid"@.len() != "darkTrellis"@.len());
            assert("lightGrid"@.len() != "lightHorizontal"@.len());
            assert("lightGrid"@.len() != "lightVertical"@.len());
            assert("lightGrid"@[5] != "lightDown"@[5]);
            assert("lightGrid"@.len() != "lightUp"@.len());
        },
        PatternValues::LightTrellis => {
            assert("lightTrellis"@.len() != "none"@.len());
            assert("lightTrellis"@.len() != "solid"@.len());
            assert("lightTrellis"@.len() != "mediumGray"@.len());
            assert("lightTrellis"@.len() != "darkGray"@.len());
            assert("lightTrellis"@.len() != "lightGray"@.len());
            assert("lightTrellis"@.len() != "darkHorizontal"@.len());
            assert("lightTrellis"@[0] != "darkVertical"@[0]);
            assert("lightTrellis"@.len() != "darkDown"@.len());
            assert("lightTrellis"@.len() != "darkUp"@.len());
            assert("lightTrellis"@.len() != "darkGrid"@.len());
            assert("lightTrellis"@.len() != "darkTrellis"@.len());
            assert("lightTrellis"@.len() != "lightHorizontal"@.len());
            assert("lightTrellis"@.len() != "lightVertical"@.len());
            assert("lightTrellis"@.len() != "lightDown"@.len());
            assert("lightTrellis"@.len() != "lightUp"@.len());
            assert("lightTrellis"@.len() != "lightGrid"@.len());
        },
        PatternValues::Gray125 => {
            assert("gray125"@.len() != "none"@.len());
            assert("gray125"@.len() != "solid"@.len());
            assert("gray125"@.len() != "mediumGray"@.len());
            assert("gray125"@.len() != "darkGray"@.len());
            assert("gray125"@.len() != "lightGray"@.len());
            assert("gray125"@.len() != "darkHorizontal"@.len());
            assert("gray125"@.len() != "darkVertical"@.len());
            assert("gray125"@.len() != "darkDown"@.len());
            assert("gray125"@.len() != "darkUp"@.len());
            assert("gray125"@.len() != "darkGrid"@.len());
            assert("gray125"@.len() != "darkTrellis"@.len());
            assert("gray125"@.len() != "lightHorizontal"@.len());
            assert("gray125"@.len() != "lightVertical"@.len());
            assert("gray125"@.len() != "lightDown"@.len());
            assert("gray125"@[0] != "lightUp"@[0]);
            assert("gray125"@.len() != "lightGrid"@.len());
            assert("gray125"@.len() != "lightTrellis"@.len());
        },
        PatternValues::Gray0625 => {
            assert("gray0625"@.len() != "none"@.len());
            assert("gray0625"@.len() != "solid"@.len());
            assert("gray0625"@.len() != "mediumGray"@.len());
            assert("gray0625"@[0] != "darkGray"@[0]);
            assert("gray0625"@.len() != "lightGray"@.len());
            assert("gray0625"@.len() != "darkHorizontal"@.len());
            assert("gray0625"@.len() != "darkVertical"@.len());
            assert("gray0625"@[0] != "darkDown"@[0]);
            assert("gray0625"@.len() != "darkUp"@.len());
            assert("gray0625"@[0] != "darkGrid"@[0]);
            assert("gray0625"@.len() != "darkTrellis"@.len());
            assert("gray0625"@.len() != "lightHorizontal"@.len());
            assert("gray0625"@.len() != "lightVertical"@.len());
            assert("gray0625"@.len() != "lightDown"@.len());
            assert("gray0625"@.len() != "lightUp"@.len());
            assert("gray0625"@.len() != "lightGrid"@.len());
            assert("gray0625"@.len() != "lightTrellis"@.len());
            assert("gray0625"@.len() != "gray125"@.len());
        },
    }
}

impl PatternValues {
    pub fn value_string(&self) -> (r: &'static str)
        ensures
            r@ == pattern_text(*self),
    {
        match self {
            PatternValues::NoPattern => "none",
            PatternValues::Solid => "solid",
            PatternValues::MediumGray => "mediumGray",
            PatternValues::DarkGray => "darkGray",
            PatternValues::LightGray => "lightGray",
            PatternValues::DarkHorizontal => "darkHorizontal",
            PatternValues::DarkVertical => "darkVertical",
            PatternValues::DarkDown => "darkDown",
            PatternValues::DarkUp => "darkUp",
            PatternValues::DarkGrid => "darkGrid",
            PatternValues::DarkTrellis => "darkTrellis",
            PatternValues::LightHorizontal => "lightHorizontal",
            PatternValues::LightVertical => "lightVertical",
            PatternValues::LightDown => "lightDown",
            PatternValues::LightUp => "lightUp",
            PatternValues::LightGrid => "lightGrid",
            PatternValues::LightTrellis => "lightTrellis",
            PatternValues::Gray125 => "gray125",
            PatternValues::Gray0625 => "gray0625",
        }
    }

    /// Reads a spelling; any other text is refused with `Err(())`.
    pub fn from_str(input: &str) -> (r: Result<Self, ()>)
        ensures
            match pattern_of(input@) {
                Some(v) => r == Ok::<Self, ()>(v),
                None => r is Err,
            },
    {
        if text_equals(input, "none") {
            Ok(PatternValues::NoPattern)
        } else if text_equals(input, "solid") {
            Ok(PatternValues::Solid)
        } else if text_equals(input, "mediumGray") {
            Ok(PatternValues::MediumGray)
        } else if text_equals(input, "darkGray") {
            Ok(PatternValues::DarkGray)
        } else if text_equals(input, "lightGray") {
            Ok(PatternValues::LightGray)
        } else if text_equals(input, "darkHorizontal") {
            Ok(PatternValues::DarkHorizontal)
        } else if text_equals(input, "darkVertical") {
            Ok(PatternValues::DarkVertical)
        } else if text_equals(input, "darkDown") {
            Ok(PatternValues::DarkDown)
        } else if text_equals(input, "darkUp") {
            Ok(PatternValues::DarkUp)
        } else if text_equals(input, "darkGrid") {
            Ok(PatternValues::DarkGrid)
        } else if text_equals(input, "darkTrellis") {
            Ok(PatternValues::DarkTrellis)
        } else if text_equals(input, "lightHorizontal") {
            Ok(PatternValues::LightHorizontal)
        } else if text_equals(input, "lightVertical") {
            Ok(PatternValues::LightVertical)
        } else if text_equals(input, "lightDown") {
            Ok(PatternValues::LightDown)
        } else if text_equals(input, "lightUp") {
            Ok(PatternValues::LightUp)
        } else if text_equals(input, "lightGrid") {
            Ok(PatternValues::LightGrid)
        } else if text_equals(input, "lightTrellis") {
            Ok(PatternValues::LightTrellis)
        } else if text_equals(input, "gray125") {
            Ok(PatternValues::Gray125)
        } else if text_equals(input, "gray0625") {
            Ok(PatternValues::Gray0625)
        } else {
            Err(())
        }
    }
}


// ---------------------------------------------------------------- keys

/// The key text of an optional number: its decimal text, or `-` when absent.
pub open spec fn option_u32_key(v: Option<u32>) -> Seq<char> {
    match v {
        Some(x) => decimal(x as nat),
        None => seq!['-'],
    }
}

fn option_u32_key_text(v: Option<u32>) -> (r: String)
    ensures
        r@ == option_u32_key(v),
{
    match v {
        Some(x) => format_unsigned(x as u64),
        None => {
            proof {
                reveal_strlit("-");
            }
            String::from_str("-")
        },
    }
}

// ---------------------------------------------------------------- Color

/// A color: an ARGB value, a theme color index, or both.
#[derive(Clone, Copy, Debug, PartialEq, Eq, Structural)]
pub struct Color {
    pub argb: Option<u32>,
    pub theme_index: Option<u32>,
}

pub open spec fn color_key(c: Color) -> Seq<char> {
    option_u32_key(c.argb) + seq![','] + option_u32_key(c.theme_index)
}

/// The attributes a color is written with: `rgb` (eight upper-case hexadecimal
/// digits), then `theme`, each only when present.
pub open spec fn color_attributes(c: Color) -> Seq<(Seq<char>, Seq<char>)> {
    let a: Seq<(Seq<char>, Seq<char>)> = match c.argb {
        Some(v) => seq![("rgb"@, hex_text(v as nat, 8))],
        None => Seq::empty(),
    };
    let t: Seq<(Seq<char>, Seq<char>)> = match c.theme_index {
        Some(v) => seq![("theme"@, decimal(v as nat))],
        None => Seq::empty(),
    };
    a + t
}

pub open spec fn color_xml(c: Color) -> Seq<char> {
    start_tag_text("color"@, color_attributes(c), true)
}

/// What a color reads from the attributes of its tag: `rgb` as hexadecimal, `theme`
/// as decimal; an attribute that is absent or does not read leaves that part absent.
pub open spec fn color_of_attributes(attrs: Seq<(Seq<char>, Seq<char>)>) -> Color {
    Color {
        argb: match attribute_value(attrs, "rgb"@) {
            Some(v) => parse_hex_u32_spec(v),
            None => None,
        },
        theme_index: match attribute_value(attrs, "theme"@) {
            Some(v) => parse_u32_spec(v),
            None => None,
        },
    }
}

impl Default for Color {
    fn default() -> (r: Self)
        ensures
            r == (Color { argb: None, theme_index: None }),
    {
        Color { argb: None, theme_index: None }
    }
}

impl Color {
    /// Reads a color from the attributes of its tag.
    pub fn from_attributes(attrs: &Vec<(String, String)>) -> (r: Color)
        ensures
            r == color_of_attributes(attrs.deep_view()),
    {
        let argb = match get_attribute(attrs, "rgb") {
            Some(v) => parse_hex_u32(v.as_str()),
            None => None,
        };
        let theme_index = match get_attribute(attrs, "theme") {
            Some(v) => parse_u32(v.as_str()),
            None => None,
        };
        Color { argb, theme_index }
    }

    fn key_text(&self) -> (r: String)
        ensures
            r@ == color_key(*self),
    {
        let mut s = option_u32_key_text(self.argb);
        proof {
            reveal_strlit(",");
        }
        s.append(",");
        let t = option_u32_key_text(self.theme_index);
        s.append(t.as_str());
        s
    }

    /// Appends `<color .../>`.
    pub fn write_to_color(&self, out: &mut String)
        ensures
            final(out)@ == old(out)@ + color_xml(*self),
    {
        let mut attrs: Vec<(String, String)> = Vec::new();
        if let Some(v) = self.argb {
            attrs.push((String::from_str("rgb"), format_hex_upper(v as u64, 8)));
        }
        let ghost after_rgb = attrs.deep_view();
        if let Some(v) = self.theme_index {
            attrs.push((String::from_str("theme"), format_unsigned(v as u64)));
        }
        proof {
            let a: Seq<(Seq<char>, Seq<char>)> = match self.argb {
                Some(v) => seq![("rgb"@, hex_text(v as nat, 8))],
                None => Seq::empty(),
            };
            assert(after_rgb =~= a);
            assert(attrs.deep_view() =~= color_attributes(*self));
        }
        write_start_tag(out, "color", &attrs, true);
    }
}

// ---------------------------------------------------------------- Font

/// A font; this crate keeps its color.
#[derive(Clone, Copy, Debug, PartialEq, Eq, Structural)]
pub struct Font {
    pub color: Option<Color>,
}

pub open spec fn font_key(f: Font) -> Seq<char> {
    match f.color {
        Some(c) => color_key(c),
        None => seq!['-'],
    }
}

pub open spec fn font_xml(f: Font) -> Seq<char> {
    start_tag_text("font"@, Seq::empty(), false) + match f.color {
        Some(c) => color_xml(c),
        None => Seq::empty(),
    } + end_tag_text("font"@)
}

impl Font {
    fn key_text(&self) -> (r: String)
        ensures
            r@ == font_key(*self),
    {
        match self.color {
            Some(c) => c.key_text(),
            None => {
                proof {
                    reveal_strlit("-");
                }
                String::from_str("-")
            },
        }
    }

    /// Appends `<font>`, the color, `</font>`.
    pub fn write_to(&self, out: &mut String)
        ensures
            final(out)@ == old(out)@ + font_xml(*self),
    {
        let none: Vec<(String, String)> = Vec::new();
        assert(none.deep_view() =~= Seq::<(Seq<char>, Seq<char>)>::empty());
        write_start_tag(out, "font", &none, false);
        if let Some(c) = self.color {
            c.write_to_color(out);
        }
        write_end_tag(out, "font");
        proof {
            let e: Seq<char> = match self.color {
                Some(c) => color_xml(c),
                None => Seq::empty(),
            };
            assert(final(out)@ =~= old(out)@ + font_xml(*self)) by {
                assert(font_xml(*self) =~= start_tag_text("font"@, Seq::empty(), false) + e
                    + end_tag_text("font"@));
            }
        }
    }
}

// ---------------------------------------------------------------- PatternFill, Fill

/// A pattern fill: its pattern type.
#[derive(Clone, Copy, Debug, PartialEq, Eq, Structural)]
pub struct PatternFill {
    pub pattern_type: PatternValues,
}

pub open spec fn pattern_fill_xml(p: PatternFill) -> Seq<char> {
    start_tag_text("patternFill"@, seq![("patternType"@, pattern_text(p.pattern_type))], true)
}

/// What a pattern fill reads from the attributes of its tag: the `patternType`,
/// `none` when absent or not a pattern type.
pub open spec fn pattern_fill_of_attributes(attrs: Seq<(Seq<char>, Seq<char>)>) -> PatternFill {
    PatternFill {
        pattern_type: match attribute_value(attrs, "patternType"@) {
            Some(v) => match pattern_of(v) {
                Some(t) => t,
                None => PatternValues::NoPattern,
            },
            None => PatternValues::NoPattern,
        },
    }
}

impl PatternFill {
    /// Reads a pattern fill from the attributes of its tag.
    pub fn from_attributes(attrs: &Vec<(String, String)>) -> (r: PatternFill)
        ensures
            r == pattern_fill_of_attributes(attrs.deep_view()),
    {
        let pattern_type = match get_attribute(attrs, "patternType") {
            Some(v) => match PatternValues::from_str(v.as_str()) {
                Ok(t) => t,
                Err(_) => PatternValues::NoPattern,
            },
            None => PatternValues::NoPattern,
        };
        PatternFill { pattern_type }
    }

    /// Appends `<patternFill patternType="..."/>`.
    pub fn write_to(&self, out: &mut String)
        ensures
            final(out)@ == old(out)@ + pattern_fill_xml(*self),
    {
        let mut attrs: Vec<(String, String)> = Vec::new();
        attrs.push(
            (String::from_str("patternType"), String::from_str(self.pattern_type.value_string())),
        );
        assert(attrs.deep_view() =~= seq![("patternType"@, pattern_text(self.pattern_type))]);
        write_start_tag(out, "patternFill", &attrs, true);
    }
}

/// A cell fill; this crate keeps its pattern fill.
#[derive(Clone, Copy, Debug, PartialEq, Eq, Structural)]
pub struct Fill {
    pub pattern_fill: Option<PatternFill>,
}

pub open spec fn fill_key(f: Fill) -> Seq<char> {
    match f.pattern_fill {
        Some(p) => pattern_text(p.pattern_type),
        None => seq!['-'],
    }
}

pub open spec fn fill_xml(f: Fill) -> Seq<char> {
    start_tag_text("fill"@, Seq::empty(), false) + match f.pattern_fill {
        Some(p) => pattern_fill_xml(p),
        None => Seq::empty(),
    } + end_tag_text("fill"@)
}

/// A fill after one event of its content.
pub open spec fn fill_after_event(f: Fill, kind: XmlEventKind, name: Seq<char>, attrs: Seq<(Seq<char>, Seq<char>)>) -> Fill {
    if opens(kind, name, "patternFill"@) {
        Fill { pattern_fill: Some(pattern_fill_of_attributes(attrs)) }
    } else {
        f
    }
}

impl Default for Fill {
    fn default() -> (r: Self)
        ensures
            r.pattern_fill is None,
    {
        Fill { pattern_fill: None }
    }
}

impl Fill {
    pub fn pattern_fill(&self) -> (r: Option<PatternFill>)
        ensures
            r == self.pattern_fill,
    {
        self.pattern_fill
    }

    fn key_text(&self) -> (r: String)
        ensures
            r@ == fill_key(*self),
    {
        match self.pattern_fill {
            Some(p) => String::from_str(p.pattern_type.value_string()),
            None => {
                proof {
                    reveal_strlit("-");
                }
                String::from_str("-")
            },
        }
    }

    /// The MD5 of the fill's key text: fills with equal keys have equal hash codes.
    pub fn hash_code(&self) -> (r: String)
        ensures
            r@ == md5_hex(fill_key(*self)),
    {
        let k = self.key_text();
        md5_hash(k.as_str())
    }

    /// Reads one event inside a `<fill>` element: a `patternFill` tag gives the
    /// pattern fill from its attributes; `</fill>` finishes the fill.
    pub fn read_event(&mut self, kind: XmlEventKind, name: &str, attrs: &Vec<(String, String)>) -> (r: ItemStep)
        ensures
            *final(self) == fill_after_event(*old(self), kind, name@, attrs.deep_view()),
            r == item_step(kind, name@, "fill"@),
    {
        if event_opens(kind, name, "patternFill") {
            self.pattern_fill = Some(PatternFill::from_attributes(attrs));
        }
        item_read_step(kind, name, "fill")
    }

    /// Appends `<fill>`, the pattern fill, `</fill>`.
    pub fn write_to(&self, out: &mut String)
        ensures
            final(out)@ == old(out)@ + fill_xml(*self),
    {
        let none: Vec<(String, String)> = Vec::new();
        assert(none.deep_view() =~= Seq::<(Seq<char>, Seq<char>)>::empty());
        write_start_tag(out, "fill", &none, false);
        if let Some(p) = self.pattern_fill {
            p.write_to(out);
        }
        write_end_tag(out, "fill");
        proof {
            let e: Seq<char> = match self.pattern_fill {
                Some(p) => pattern_fill_xml(p),
                None => Seq::empty(),
            };
            assert(fill_xml(*self) =~= start_tag_text("fill"@, Seq::empty(), false) + e
                + end_tag_text("fill"@));
        }
    }
}

// ---------------------------------------------------------------- Style

/// A cell style; this crate keeps its font and its fill.
#[derive(Clone, Copy, Debug, PartialEq, Eq, Structural)]
pub struct Style {
    pub font: Option<Font>,
    pub fill: Option<Fill>,
}

pub open spec fn default_style() -> Style {
    Style { font: None, fill: None }
}

impl Default for Style {
    fn default() -> (r: Self)
        ensures
            r == default_style(),
    {
        Style { font: None, fill: None }
    }
}

impl Style {
    pub fn fill(&self) -> (r: Option<Fill>)
        ensures
            r == self.fill,
    {
        self.fill
    }

    pub fn font(&self) -> (r: Option<Font>)
        ensures
            r == self.font,
    {
        self.font
    }

    pub fn set_fill(&mut self, value: Fill) -> (r: &mut Self)
        ensures
            *r == (Style { fill: Some(value), ..*old(self) }),
            *final(self) == *final(r),
    {
        self.fill = Some(value);
        self
    }

    pub fn set_font(&mut self, value: Font) -> (r: &mut Self)
        ensures
            *r == (Style { font: Some(value), ..*old(self) }),
            *final(self) == *final(r),
    {
        self.font = Some(value);
        self
    }

    /// Whether this is the default style (`*self == Style::default()`).
    pub fn is_default(&self) -> (r: bool)
        ensures
            r == (*self == default_style()),
    {
        self.font.is_none() && self.fill.is_none()
    }
}

// ---------------------------------------------------------------- DifferentialFormat

/// A differential format (`<dxf>`): the style parts that conditional formatting
/// lays over a cell's own style.
#[derive(Clone, Copy, Debug, PartialEq, Eq, Structural)]
pub struct DifferentialFormat {
    pub font: Option<Font>,
    pub fill: Option<Fill>,
}

/// The key text of a format: its font's key (nothing when it has no font), `;`, then
/// its fill's key (nothing when it has no fill).
pub open spec fn dxf_key(d: DifferentialFormat) -> Seq<char> {
    (match d.font {
        Some(f) => font_key(f),
        None => Seq::empty(),
    }) + seq![';'] + (match d.fill {
        Some(f) => fill_key(f),
        None => Seq::empty(),
    })
}

pub open spec fn dxf_xml(d: DifferentialFormat) -> Seq<char> {
    start_tag_text("dxf"@, Seq::empty(), false) + (match d.font {
        Some(f) => font_xml(f),
        None => Seq::empty(),
    }) + (match d.fill {
        Some(f) => fill_xml(f),
        None => Seq::empty(),
    }) + end_tag_text("dxf"@)
}

/// A differential format after one event of its content: a `font` tag gives an
/// empty font, a `color` tag the font's color, a `fill` tag an empty fill and a
/// `patternFill` tag the fill's pattern fill.
pub open spec fn dxf_after_event(d: DifferentialFormat, kind: XmlEventKind, name: Seq<char>, attrs: Seq<(Seq<char>, Seq<char>)>) -> DifferentialFormat {
    if opens(kind, name, "font"@) {
        DifferentialFormat { font: Some(Font { color: None }), ..d }
    } else if opens(kind, name, "color"@) {
        DifferentialFormat { font: Some(Font { color: Some(color_of_attributes(attrs)) }), ..d }
    } else if opens(kind, name, "fill"@) {
        DifferentialFormat { fill: Some(Fill { pattern_fill: None }), ..d }
    } else if opens(kind, name, "patternFill"@) {
        DifferentialFormat {
            fill: Some(Fill { pattern_fill: Some(pattern_fill_of_attributes(attrs)) }),
            ..d
        }
    } else {
        d
    }
}

impl Default for DifferentialFormat {
    fn default() -> (r: Self)
        ensures
            r == (DifferentialFormat { font: None, fill: None }),
    {
        DifferentialFormat { font: None, fill: None }
    }
}

impl DifferentialFormat {
    /// Takes the style's font and fill.
    pub fn set_style(&mut self, style: &Style) -> (r: &mut Self)
        ensures
            *r == (DifferentialFormat { font: style.font, fill: style.fill }),
            *final(self) == *final(r),
    {
        self.font = style.font;
        self.fill = style.fill;
        self
    }

    /// The style this format lays over a cell.
    pub fn style(&self) -> (r: Style)
        ensures
            r == (Style { font: self.font, fill: self.fill }),
    {
        Style { font: self.font, fill: self.fill }
    }

    fn key_text(&self) -> (r: String)
        ensures
            r@ == dxf_key(*self),
    {
        proof {
            reveal_strlit("-");
            reveal_strlit(";");
        }
        let mut s = match self.font {
            Some(f) => f.key_text(),
            None => String::new(),
        };
        s.append(";");
        let t = match self.fill {
            Some(f) => f.key_text(),
            None => String::new(),
        };
        s.append(t.as_str());
        s
    }

    /// The MD5 of the format's key text.
    pub fn hash_code(&self) -> (r: String)
        ensures
            r@ == md5_hex(dxf_key(*self)),
    {
        let k = self.key_text();
        md5_hash(k.as_str())
    }

    /// Reads one event inside a `<dxf>` element; `</dxf>` finishes the format.
    pub fn read_event(&mut self, kind: XmlEventKind, name: &str, attrs: &Vec<(String, String)>) -> (r: ItemStep)
        ensures
            *final(self) == dxf_after_event(*old(self), kind, name@, attrs.deep_view()),
            r == item_step(kind, name@, "dxf"@),
    {
        if event_opens(kind, name, "font") {
            self.font = Some(Font { color: None });
        } else if event_opens(kind, name, "color") {
            self.font = Some(Font { color: Some(Color::from_attributes(attrs)) });
        } else if event_opens(kind, name, "fill") {
            self.fill = Some(Fill { pattern_fill: None });
        } else if event_opens(kind, name, "patternFill") {
            self.fill = Some(Fill { pattern_fill: Some(PatternFill::from_attributes(attrs)) });
        }
        item_read_step(kind, name, "dxf")
    }

    /// Appends `<dxf>`, the font, the fill, `</dxf>`.
    pub fn write_to(&self, out: &mut String)
        ensures
            final(out)@ == old(out)@ + dxf_xml(*self),
    {
        let ghost start = out@;
        let none: Vec<(String, String)> = Vec::new();
        assert(none.deep_view() =~= Seq::<(Seq<char>, Seq<char>)>::empty());
        write_start_tag(out, "dxf", &none, false);
        if let Some(f) = self.font {
            f.write_to(out);
        }
        if let Some(f) = self.fill {
            f.write_to(out);
        }
        write_end_tag(out, "dxf");
        proof {
            let a: Seq<char> = match self.font {
                Some(f) => font_xml(f),
                None => Seq::empty(),
            };
            let b: Seq<char> = match self.fill {
                Some(f) => fill_xml(f),
                None => Seq::empty(),
            };
            assert(out@ =~= start + (start_tag_text("dxf"@, Seq::empty(), false) + a + b
                + end_tag_text("dxf"@)));
        }
    }
}

// ---------------------------------------------------------------- Stylesheet

/// The cell styles of a workbook, by index.
#[derive(Clone, Debug)]
pub struct Stylesheet {
    pub cell_styles: Vec<Style>,
}

/// The style at `id` of a list of styles, or the default style when there is none.
pub open spec fn style_at(styles: Seq<Style>, id: int) -> Style {
    if 0 <= id < styles.len() {
        styles[id]
    } else {
        default_style()
    }
}

impl Stylesheet {
    /// The cell style at `id`, or the default style when there is none.
    pub fn style(&self, id: usize) -> (r: Style)
        ensures
            r == style_at(self.cell_styles@, id as int),
    {
        if id < self.cell_styles.len() {
            self.cell_styles[id]
        } else {
            Style::default()
        }
    }
}

// ---------------------------------------------------------------- keys tell parts apart

proof fn lemma_option_u32_key_injective(a: Option<u32>, b: Option<u32>)
    ensures
        option_u32_key(a) == option_u32_key(b) ==> a == b,
        !option_u32_key(a).contains(','),
        !option_u32_key(a).contains(';'),
        option_u32_key(a).len() > 0,
{
    match a {
        Some(x) => {
            lemma_decimal_injective(x as nat, x as nat);
            lemma_decimal_digits(x as nat);
            match b {
                Some(y) => {
                    lemma_decimal_injective(x as nat, y as nat);
                },
                None => {
                    assert(is_digit(decimal(x as nat)[0]));
                    if option_u32_key(a) == option_u32_key(b) {
                        assert(option_u32_key(a)[0] == option_u32_key(b)[0]);
                    }
                },
            }
        },
        None => {
            if let Some(y) = b {
                lemma_decimal_digits(y as nat);
                assert(is_digit(decimal(y as nat)[0]));
                if option_u32_key(a) == option_u32_key(b) {
                    assert(option_u32_key(a)[0] == option_u32_key(b)[0]);
                }
            }
            assert(!option_u32_key(a).contains(',')) by {
                assert(option_u32_key(a) =~= seq!['-']);
            }
            assert(!option_u32_key(a).contains(';')) by {
                assert(option_u32_key(a) =~= seq!['-']);
            }
        },
    }
}

/// Two colors with the same key text are the same color.
pub proof fn law_color_key_identifies_the_color(a: Color, b: Color)
    ensures
        color_key(a) == color_key(b) ==> a == b,
        !color_key(a).contains(';'),
        color_key(a).contains(','),
{
    lemma_option_u32_key_injective(a.argb, b.argb);
    lemma_option_u32_key_injective(b.argb, a.argb);
    lemma_option_u32_key_injective(a.theme_index, b.theme_index);
    let ka = color_key(a);
    assert(ka[option_u32_key(a.argb).len() as int] == ',');
    if color_key(a) == color_key(b) {
        lemma_split_at_separator(
            option_u32_key(a.argb),
            option_u32_key(a.theme_index),
            option_u32_key(b.argb),
            option_u32_key(b.theme_index),
            ',',
        );
    }
    assert(!ka.contains(';')) by {
        if ka.contains(';') {
            let i = choose|i: int| 0 <= i < ka.len() && ka[i] == ';';
            let n = option_u32_key(a.argb).len() as int;
            if i < n {
                assert(option_u32_key(a.argb)[i] == ';');
            } else if i > n {
                assert(option_u32_key(a.theme_index)[i - n - 1] == ';');
            }
        }
    }
}

/// Two fonts with the same key text are the same font.
pub proof fn law_font_key_identifies_the_font(a: Font, b: Font)
    ensures
        font_key(a) == font_key(b) ==> a == b,
        !font_key(a).contains(';'),
        font_key(a).len() > 0,
{
    match a.color {
        Some(ca) => {
            law_color_key_identifies_the_color(ca, ca);
            match b.color {
                Some(cb) => law_color_key_identifies_the_color(ca, cb),
                None => {
                    if font_key(a) == font_key(b) {
                        let i = choose|i: int| 0 <= i < color_key(ca).len() && color_key(ca)[i] == ',';
                        assert(font_key(b)[i] == ',');
                    }
                },
            }
        },
        None => {
            assert(font_key(a) =~= seq!['-']);
            if let Some(cb) = b.color {
                law_color_key_identifies_the_color(cb, cb);
                if font_key(a) == font_key(b) {
                    let i = choose|i: int| 0 <= i < color_key(cb).len() && color_key(cb)[i] == ',';
                    assert(font_key(a)[i] == ',');
                }
            }
        },
    }
}

/// Two fills with the same key text are the same fill: the key holds the pattern.
pub proof fn law_fill_key_identifies_the_fill(a: Fill, b: Fill)
    ensures
        fill_key(a) == fill_key(b) ==> a == b,
        !fill_key(a).contains(';'),
        fill_key(a).len() > 0,
{
    match a.pattern_fill {
        Some(pa) => {
            law_pattern_round_trip(pa.pattern_type);
            if let Some(pb) = b.pattern_fill {
                law_pattern_round_trip(pb.pattern_type);
            }
            lemma_pattern_text_has_no_semicolon(pa.pattern_type);
        },
        None => {
            if let Some(pb) = b.pattern_fill {
                law_pattern_round_trip(pb.pattern_type);
            }
            assert(fill_key(a) =~= seq!['-']);
        },
    }
}

proof fn lemma_pattern_text_has_no_semicolon(p: PatternValues)
    ensures
        !pattern_text(p).contains(';'),
        pattern_text(p).len() > 0,
{
    let t = pattern_text(p);
    law_pattern_round_trip(p);
    match p {
        PatternValues::NoPattern => {
            reveal_strlit("none");
        },
        PatternValues::Solid => {
            reveal_strlit("solid");
        },
        PatternValues::MediumGray => {
            reveal_strlit("mediumGray");
        },
        PatternValues::DarkGray => {
            reveal_strlit("darkGray");
        },
        PatternValues::LightGray => {
            reveal_strlit("lightGray");
        },
        PatternValues::DarkHorizontal => {
            reveal_strlit("darkHorizontal");
        },
        PatternValues::DarkVertical => {
            reveal_strlit("darkVertical");
        },
        PatternValues::DarkDown => {
            reveal_strlit("darkDown");
        },
        PatternValues::DarkUp => {
            reveal_strlit("darkUp");
        },
        PatternValues::DarkGrid => {
            reveal_strlit("darkGrid");
        },
        PatternValues::DarkTrellis => {
            reveal_strlit("darkTrellis");
        },
        PatternValues::LightHorizontal => {
            reveal_strlit("lightHorizontal");
        },
        PatternValues::LightVertical => {
            reveal_strlit("lightVertical");
        },
        PatternValues::LightDown => {
            reveal_strlit("lightDown");
        },
        PatternValues::LightUp => {
            reveal_strlit("lightUp");
        },
        PatternValues::LightGrid => {
            reveal_strlit("lightGrid");
        },
        PatternValues::LightTrellis => {
            reveal_strlit("lightTrellis");
        },
        PatternValues::Gray125 => {
            reveal_strlit("gray125");
        },
        PatternValues::Gray0625 => {
            reveal_strlit("gray0625");
        },
    }
    if t.contains(';') {
        let i = choose|i: int| 0 <= i < t.len() && t[i] == ';';
        assert(t[i] == ';');
    }
}

/// Two formats with the same key text are the same format: the key holds the font
/// and the fill, and tells a missing one from one that is present.
pub proof fn law_dxf_key_identifies_the_format(a: DifferentialFormat, b: DifferentialFormat)
    ensures
        dxf_key(a) == dxf_key(b) ==> a == b,
{
    let fa: Seq<char> = match a.font {
        Some(f) => font_key(f),
        None => Seq::empty(),
    };
    let fb: Seq<char> = match b.font {
        Some(f) => font_key(f),
        None => Seq::empty(),
    };
    let la: Seq<char> = match a.fill {
        Some(f) => fill_key(f),
        None => Seq::empty(),
    };
    let lb: Seq<char> = match b.fill {
        Some(f) => fill_key(f),
        None => Seq::empty(),
    };
    if let Some(f) = a.font {
        law_font_key_identifies_the_font(f, f);
    }
    if let Some(f) = b.font {
        law_font_key_identifies_the_font(f, f);
    }
    if let Some(f) = a.fill {
        law_fill_key_identifies_the_fill(f, f);
    }
    if let Some(f) = b.fill {
        law_fill_key_identifies_the_fill(f, f);
    }
    if dxf_key(a) == dxf_key(b) {
        lemma_split_at_separator(fa, la, fb, lb, ';');
        if let Some(x) = a.font {
            if let Some(y) = b.font {
                law_font_key_identifies_the_font(x, y);
            }
        }
        if let Some(x) = a.fill {
            if let Some(y) = b.fill {
                law_fill_key_identifies_the_fill(x, y);
            }
        }
    }
}

} // verus!
