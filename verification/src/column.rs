//! A column of a worksheet: its number, width, visibility, fitting flags and style.
use vstd::prelude::*;
use crate::decimal::{parse_usize, parse_usize_spec};
use crate::digest::{md5_hash, md5_hex};
use crate::styles::{default_style, style_at, Style, Stylesheet};
use crate::text::lemma_split_at_length;
use crate::values::{bool_or_false, bool_text, reads_true, u32_or_zero, BooleanValue, UInt32Value};
use crate::xml::{attribute_value, get_attribute};

verus! {

/// A worksheet column. The width is held as a `W` that this crate only stores and
/// hands back (the file format writes it as a decimal fraction).
#[derive(Clone, Debug)]
pub struct Column<W> {
    col_num: UInt32Value,
    width: W,
    hidden: BooleanValue,
    best_fit: BooleanValue,
    style: Box<Style>,
    auto_width: BooleanValue,
    custom_width: BooleanValue,
}

/// What a column holds.
pub struct ColumnView<W> {
    pub col_num: Option<u32>,
    pub width: W,
    pub hidden: Option<bool>,
    pub best_fit: Option<bool>,
    pub style: Style,
    pub auto_width: Option<bool>,
    pub custom_width: Option<bool>,
}

impl<W> View for Column<W> {
    type V = ColumnView<W>;

    closed spec fn view(&self) -> ColumnView<W> {
        ColumnView {
            col_num: self.col_num@,
            width: self.width,
            hidden: self.hidden@,
            best_fit: self.best_fit@,
            style: *self.style,
            auto_width: self.auto_width@,
            custom_width: self.custom_width@,
        }
    }
}

/// The text a column's hash code is the digest of: the width's text, then `1` or `0`
/// for hidden, best fit and custom width. These are all the attributes that a `<col>`
/// element is written with besides its range.
pub open spec fn column_hash_key<W>(width_text: Seq<char>, c: ColumnView<W>) -> Seq<char> {
    width_text + bool_text(bool_or_false(c.hidden)) + bool_text(bool_or_false(c.best_fit))
        + bool_text(bool_or_false(c.custom_width))
}

/// A boolean attribute as read from a tag: the value when the attribute is present,
/// the old value otherwise.
pub open spec fn read_flag(attrs: Seq<(Seq<char>, Seq<char>)>, key: Seq<char>, old: Option<bool>) -> Option<bool> {
    match attribute_value(attrs, key) {
        Some(v) => Some(reads_true(v)),
        None => old,
    }
}

/// The column number after `adjustment_insert_value(root_num, offset_num)`.
pub open spec fn inserted_col_num(col: u32, root_num: u32, offset_num: u32) -> int {
    if col >= root_num {
        col + offset_num
    } else {
        col as int
    }
}

/// The column number after `adjustment_remove_value(root_num, offset_num)`.
pub open spec fn removed_col_num(col: u32, root_num: u32, offset_num: u32) -> int {
    if col >= root_num {
        col - offset_num
    } else {
        col as int
    }
}

impl<W> Column<W> {
    /// A column with the given width and everything else absent or default.
    pub fn new(width: W) -> (r: Self)
        ensures
            r@ == (ColumnView {
                col_num: None,
                width,
                hidden: None,
                best_fit: None,
                style: default_style(),
                auto_width: None,
                custom_width: None,
            }),
    {
        Column {
            col_num: UInt32Value::default(),
            width,
            hidden: BooleanValue::default(),
            best_fit: BooleanValue::default(),
            style: Box::new(Style::default()),
            auto_width: BooleanValue::default(),
            custom_width: BooleanValue::default(),
        }
    }

    pub fn col_num(&self) -> (r: u32)
        ensures
            r == u32_or_zero(self@.col_num),
    {
        self.col_num.value()
    }

    pub fn get_col_num(&self) -> (r: u32)
        ensures
            r == u32_or_zero(self@.col_num),
    {
        self.col_num()
    }

    pub fn set_col_num(&mut self, value: u32) -> (r: &mut Self)
        ensures
            r@ == (ColumnView { col_num: Some(value), ..old(self)@ }),
            *final(self) == *final(r),
    {
        self.col_num.set_value(value);
        self
    }

    pub fn width(&self) -> (r: &W)
        ensures
            *r == self@.width,
    {
        &self.width
    }

    pub fn get_width(&self) -> (r: &W)
        ensures
            *r == self@.width,
    {
        self.width()
    }

    /// Sets the width and marks it as authored (`custom_width` becomes `true`).
    pub fn set_width(&mut self, value: W) -> (r: &mut Self)
        ensures
            r@ == (ColumnView { width: value, custom_width: Some(true), ..old(self)@ }),
            *final(self) == *final(r),
    {
        self.width = value;
        self.custom_width.set_value(true);
        self
    }

    pub fn hidden(&self) -> (r: bool)
        ensures
            r == bool_or_false(self@.hidden),
    {
        self.hidden.value()
    }

    pub fn get_hidden(&self) -> (r: bool)
        ensures
            r == bool_or_false(self@.hidden),
    {
        self.hidden()
    }

    pub fn set_hidden(&mut self, value: bool) -> (r: &mut Self)
        ensures
            r@ == (ColumnView { hidden: Some(value), ..old(self)@ }),
            *final(self) == *final(r),
    {
        self.hidden.set_value(value);
        self
    }

    pub fn best_fit(&self) -> (r: bool)
        ensures
            r == bool_or_false(self@.best_fit),
    {
        self.best_fit.value()
    }

    pub fn get_best_fit(&self) -> (r: bool)
        ensures
            r == bool_or_false(self@.best_fit),
    {
        self.best_fit()
    }

    pub fn set_best_fit(&mut self, value: bool) -> (r: &mut Self)
        ensures
            r@ == (ColumnView { best_fit: Some(value), ..old(self)@ }),
            *final(self) == *final(r),
    {
        self.best_fit.set_value(value);
        self
    }

    pub fn style(&self) -> (r: &Style)
        ensures
            *r == self@.style,
    {
        &self.style
    }

    pub fn get_style(&self) -> (r: &Style)
        ensures
            *r == self@.style,
    {
        self.style()
    }

    pub fn style_mut(&mut self) -> (r: &mut Style)
        ensures
            *r == old(self)@.style,
            final(self)@ == (ColumnView { style: *final(r), ..old(self)@ }),
    {
        &mut self.style
    }

    pub fn get_style_mut(&mut self) -> (r: &mut Style)
        ensures
            *r == old(self)@.style,
            final(self)@ == (ColumnView { style: *final(r), ..old(self)@ }),
    {
        self.style_mut()
    }

    pub fn set_style(&mut self, value: Style) -> (r: &mut Self)
        ensures
            r@ == (ColumnView { style: value, ..old(self)@ }),
            *final(self) == *final(r),
    {
        *self.style = value;
        self
    }

    /// Whether the width was authored rather than inherited from the sheet default;
    /// `false` when never set.
    pub fn custom_width(&self) -> (r: bool)
        ensures
            r == bool_or_false(self@.custom_width),
    {
        self.custom_width.value()
    }

    pub fn set_custom_width(&mut self, value: bool) -> (r: &mut Self)
        ensures
            r@ == (ColumnView { custom_width: Some(value), ..old(self)@ }),
            *final(self) == *final(r),
    {
        self.custom_width.set_value(value);
        self
    }

    pub fn auto_width(&self) -> (r: bool)
        ensures
            r == bool_or_false(self@.auto_width),
    {
        self.auto_width.value()
    }

    pub fn get_auto_width(&self) -> (r: bool)
        ensures
            r == bool_or_false(self@.auto_width),
    {
        self.auto_width()
    }

    pub fn set_auto_width(&mut self, value: bool) -> (r: &mut Self)
        ensures
            r@ == (ColumnView { auto_width: Some(value), ..old(self)@ }),
            *final(self) == *final(r),
    {
        self.auto_width.set_value(value);
        self
    }

    /// Whether the column has a style other than the default one.
    pub fn has_style(&self) -> (r: bool)
        ensures
            r == (self@.style != default_style()),
    {
        !self.style.is_default()
    }

    /// The hash code that decides whether neighbouring columns are written as one
    /// `<col>` run: the MD5 of `column_hash_key`, given the width's text.
    pub fn hash_code(&self, width_text: &str) -> (r: String)
        ensures
            r@ == md5_hex(column_hash_key(width_text@, self@)),
    {
        let mut key = String::from_str(width_text);
        key.append(self.hidden.value_string());
        key.append(self.best_fit.value_string());
        key.append(self.custom_width.value_string());
        md5_hash(key.as_str())
    }

    pub fn get_hash_code(&self, width_text: &str) -> (r: String)
        ensures
            r@ == md5_hex(column_hash_key(width_text@, self@)),
    {
        self.hash_code(width_text)
    }

    /// Reads the attributes of a `<col>` tag: the width (`width`, a decimal fraction
    /// that the caller reads and hands over when it reads as one), `hidden`, `bestFit`,
    /// `customWidth`, and `style` (an index into the stylesheet's cell styles). An
    /// absent attribute leaves its part as it was; reading the width does not mark it
    /// as authored, only `customWidth` does.
    pub fn set_attributes(&mut self, attrs: &Vec<(String, String)>, width: Option<W>, stylesheet: &Stylesheet)
        requires
            attribute_value(attrs.deep_view(), "style"@) matches Some(v) ==> parse_usize_spec(v) is Some,
        ensures
            final(self)@ == (ColumnView {
                width: match width {
                    Some(w) => w,
                    None => old(self)@.width,
                },
                hidden: read_flag(attrs.deep_view(), "hidden"@, old(self)@.hidden),
                best_fit: read_flag(attrs.deep_view(), "bestFit"@, old(self)@.best_fit),
                custom_width: read_flag(attrs.deep_view(), "customWidth"@, old(self)@.custom_width),
                style: match attribute_value(attrs.deep_view(), "style"@) {
                    Some(v) => style_at(stylesheet.cell_styles@, parse_usize_spec(v).unwrap() as int),
                    None => old(self)@.style,
                },
                ..old(self)@
            }),
    {
        if let Some(w) = width {
            self.width = w;
        }
        if let Some(v) = get_attribute(attrs, "hidden") {
            self.hidden.set_value_string(v.as_str());
        }
        if let Some(v) = get_attribute(attrs, "bestFit") {
            self.best_fit.set_value_string(v.as_str());
        }
        if let Some(v) = get_attribute(attrs, "customWidth") {
            self.custom_width.set_value_string(v.as_str());
        }
        if let Some(v) = get_attribute(attrs, "style") {
            let id = parse_usize(v.as_str());
            let style = stylesheet.style(id.unwrap());
            self.set_style(style);
        }
    }

    /// Moves the column right by `offset_num` when it lies at or after `root_num`
    /// (columns were inserted there).
    pub fn adjustment_insert_value(&mut self, root_num: u32, offset_num: u32)
        requires
            u32_or_zero(old(self)@.col_num) >= root_num ==> u32_or_zero(old(self)@.col_num)
                + offset_num <= u32::MAX,
        ensures
            final(self)@ == (if u32_or_zero(old(self)@.col_num) >= root_num {
                ColumnView {
                    col_num: Some(
                        inserted_col_num(u32_or_zero(old(self)@.col_num), root_num, offset_num) as u32,
                    ),
                    ..old(self)@
                }
            } else {
                old(self)@
            }),
    {
        if self.col_num.value() >= root_num {
            let v = self.col_num.value() + offset_num;
            self.col_num.set_value(v);
        }
    }

    /// Moves the column left by `offset_num` when it lies at or after `root_num`
    /// (columns were removed there).
    pub fn adjustment_remove_value(&mut self, root_num: u32, offset_num: u32)
        requires
            u32_or_zero(old(self)@.col_num) >= root_num ==> u32_or_zero(old(self)@.col_num)
                >= offset_num,
        ensures
            final(self)@ == (if u32_or_zero(old(self)@.col_num) >= root_num {
                ColumnView {
                    col_num: Some(
                        removed_col_num(u32_or_zero(old(self)@.col_num), root_num, offset_num) as u32,
                    ),
                    ..old(self)@
                }
            } else {
                old(self)@
            }),
    {
        if self.col_num.value() >= root_num {
            let v = self.col_num.value() - offset_num;
            self.col_num.set_value(v);
        }
    }

    /// Whether the column lies in the removed range `root_num .. root_num + offset_num`.
    pub fn is_remove_value(&self, root_num: u32, offset_num: u32) -> (r: bool)
        requires
            u32_or_zero(self@.col_num) >= root_num ==> root_num + offset_num <= u32::MAX,
        ensures
            r == (u32_or_zero(self@.col_num) >= root_num && u32_or_zero(self@.col_num) < root_num
                + offset_num),
    {
        self.col_num.value() >= root_num && self.col_num.value() < root_num + offset_num
    }
}

/// Removing the columns that were just inserted at the same place and count puts
/// every column back where it was.
pub proof fn law_insert_then_remove_restores_col_num(col: u32, root_num: u32, offset_num: u32)
    requires
        col >= root_num ==> col + offset_num <= u32::MAX,
    ensures
        removed_col_num(
            inserted_col_num(col, root_num, offset_num) as u32,
            root_num,
            offset_num,
        ) == col,
{
}

/// A column moved by an insertion never lies in the range that the same removal
/// would delete.
pub proof fn law_inserted_column_is_not_removed(col: u32, root_num: u32, offset_num: u32)
    requires
        col >= root_num ==> col + offset_num <= u32::MAX,
    ensures
        col >= root_num ==> !(inserted_col_num(col, root_num, offset_num) < root_num + offset_num),
{
}

/// Two columns with the same width text get different hash keys whenever they differ
/// in hidden, best fit or custom width; with all of these equal the keys are equal.
pub proof fn law_hash_key_separates_flags<W>(width_text: Seq<char>, a: ColumnView<W>, b: ColumnView<W>)
    ensures
        (column_hash_key(width_text, a) == column_hash_key(width_text, b)) <==> (bool_or_false(
            a.hidden,
        ) == bool_or_false(b.hidden) && bool_or_false(a.best_fit) == bool_or_false(b.best_fit)
            && bool_or_false(a.custom_width) == bool_or_false(b.custom_width)),
{
    let ka = column_hash_key(width_text, a);
    let kb = column_hash_key(width_text, b);
    let n = width_text.len() as int;
    assert(ka.len() == n + 3);
    assert(kb.len() == n + 3);
    if ka == kb {
        assert(ka[n] == kb[n]);
        assert(ka[n + 1] == kb[n + 1]);
        assert(ka[n + 2] == kb[n + 2]);
    }
    if bool_or_false(a.hidden) == bool_or_false(b.hidden) && bool_or_false(a.best_fit)
        == bool_or_false(b.best_fit) && bool_or_false(a.custom_width) == bool_or_false(
        b.custom_width,
    ) {
        assert(ka =~= kb);
    }
}

/// Two columns get the same hash key exactly when their width texts are the same and
/// they agree on hidden, best fit and custom width: columns written with different
/// widths never share a `<col>` run.
pub proof fn law_hash_key_determines_width_and_flags<W>(
    width_a: Seq<char>,
    a: ColumnView<W>,
    width_b: Seq<char>,
    b: ColumnView<W>,
)
    ensures
        (column_hash_key(width_a, a) == column_hash_key(width_b, b)) <==> (width_a == width_b
            && bool_or_false(a.hidden) == bool_or_false(b.hidden) && bool_or_false(a.best_fit)
            == bool_or_false(b.best_fit) && bool_or_false(a.custom_width) == bool_or_false(
            b.custom_width,
        )),
{
    let ka = column_hash_key(width_a, a);
    let kb = column_hash_key(width_b, b);
    let fa = bool_text(bool_or_false(a.hidden)) + bool_text(bool_or_false(a.best_fit)) + bool_text(
        bool_or_false(a.custom_width),
    );
    let fb = bool_text(bool_or_false(b.hidden)) + bool_text(bool_or_false(b.best_fit)) + bool_text(
        bool_or_false(b.custom_width),
    );
    assert(ka =~= width_a + fa);
    assert(kb =~= width_b + fb);
    if ka == kb {
        assert(width_a.len() == width_b.len());
        lemma_split_at_length(width_a, fa, width_b, fb);
        assert(fa[0] == fb[0]);
        assert(fa[1] == fb[1]);
        assert(fa[2] == fb[2]);
    }
}

} // verus!
