//! Reading a start tag's attributes and writing elements, through quick-xml.
use vstd::prelude::*;
use quick_xml::events::{BytesEnd, BytesStart, BytesText, Event};
use quick_xml::Writer;
use crate::text::{lemma_split_at_length, text_equals};

verus! {

/// The attributes (key, raw value) that quick-xml finds in a start tag whose
/// content (name and attributes, without `<` and `>`) is `content` and whose name
/// takes the first `name_len` bytes, in the order they appear. Malformed attributes
/// are left out.
pub uninterp spec fn xml_tag_attributes(content: Seq<char>, name_len: nat) -> Seq<(Seq<char>, Seq<char>)>;

/// What `quick_xml::escape::unescape` gives for a raw text: the text with its entity
/// and character references replaced, or `None` when a reference is malformed or
/// unknown.
pub uninterp spec fn xml_unescaped(raw: Seq<char>) -> Option<Seq<char>>;

/// Raw text as it reads once its references are replaced: text without `&` holds no
/// reference and reads as it stands; text that `escape_text` writes for some text
/// reads as that text; other text reads as quick-xml unescapes it.
pub open spec fn text_unescaped(raw: Seq<char>) -> Option<Seq<char>> {
    if !raw.contains('&') {
        Some(raw)
    } else if exists|s: Seq<char>| escape_text(s) == raw {
        Some(choose|s: Seq<char>| escape_text(s) == raw)
    } else {
        xml_unescaped(raw)
    }
}

/// What quick-xml writes for a special character of an attribute value or text.
pub open spec fn escape_char(c: char) -> Seq<char> {
    if c == '<' {
        seq!['&', 'l', 't', ';']
    } else if c == '>' {
        seq!['&', 'g', 't', ';']
    } else if c == '&' {
        seq!['&', 'a', 'm', 'p', ';']
    } else if c == '\'' {
        seq!['&', 'a', 'p', 'o', 's', ';']
    } else if c == '"' {
        seq!['&', 'q', 'u', 'o', 't', ';']
    } else {
        seq![c]
    }
}

/// `quick_xml::escape::escape`: each of `< > & ' "` replaced by its entity.
pub open spec fn escape_text(s: Seq<char>) -> Seq<char>
    decreases s.len(),
{
    if s.len() == 0 {
        Seq::empty()
    } else {
        escape_text(s.drop_last()) + escape_char(s.last())
    }
}

/// The attributes as quick-xml writes them after a tag's name: ` key="value"` each.
pub open spec fn attributes_text(attrs: Seq<(Seq<char>, Seq<char>)>) -> Seq<char>
    decreases attrs.len(),
{
    if attrs.len() == 0 {
        Seq::empty()
    } else {
        attributes_text(attrs.drop_last()) + seq![' '] + attrs.last().0 + seq!['=', '"']
            + escape_text(attrs.last().1) + seq!['"']
    }
}

/// `<name attrs/>` when `empty`, `<name attrs>` otherwise.
pub open spec fn start_tag_text(name: Seq<char>, attrs: Seq<(Seq<char>, Seq<char>)>, empty: bool) -> Seq<char> {
    seq!['<'] + name + attributes_text(attrs) + if empty {
        seq!['/', '>']
    } else {
        seq!['>']
    }
}

/// `</name>`.
pub open spec fn end_tag_text(name: Seq<char>) -> Seq<char> {
    seq!['<', '/'] + name + seq!['>']
}

/// The value of the first attribute named `key`, if any.
pub open spec fn attribute_value(attrs: Seq<(Seq<char>, Seq<char>)>, key: Seq<char>) -> Option<Seq<char>>
    decreases attrs.len(),
{
    if attrs.len() == 0 {
        None
    } else if attrs[0].0 == key {
        Some(attrs[0].1)
    } else {
        attribute_value(attrs.drop_first(), key)
    }
}

/// Splits a start tag into its attributes with `BytesStart::from_content(content,
/// name_len).attributes().with_checks(false)`, keeping each attribute that parses,
/// with its key and undecoded value as text. Claimed: the result is
/// `xml_tag_attributes` of the arguments; what quick-xml accepts as an attribute is
/// not stated.
#[verifier::external_body]
fn quick_xml_tag_attributes(content: &str, name_len: usize) -> (r: Vec<(String, String)>)
    requires
        name_len <= content.len(),
    ensures
        r.deep_view() == xml_tag_attributes(content@, name_len as nat),
{
    BytesStart::from_content(content, name_len).attributes().with_checks(false).filter_map(
        |a| a.ok(),
    ).map(
        |a| (
            String::from_utf8_lossy(a.key.as_ref()).into_owned(),
            String::from_utf8_lossy(&a.value).into_owned(),
        ),
    ).collect()
}

/// One piece of XML to write: a start tag (an empty-element tag when the flag is set)
/// with its attributes, an end tag, or text content.
pub enum XmlWrite<'a> {
    StartTag(&'a str, &'a Vec<(String, String)>, bool),
    EndTag(&'a str),
    Text(&'a str),
}

/// The text that quick-xml writes for a piece.
pub open spec fn written_text(w: XmlWrite) -> Seq<char> {
    match w {
        XmlWrite::StartTag(name, attrs, empty) => start_tag_text(name@, attrs.deep_view(), empty),
        XmlWrite::EndTag(name) => end_tag_text(name@),
        XmlWrite::Text(text) => escape_text(text@),
    }
}

/// Writes the piece with `Writer::write_event` (a `BytesStart::new(name)` extended by
/// the attributes, a `BytesEnd::new(name)`, or a `BytesText::new(text)`) and appends
/// what was written. Claimed, as quick-xml's `push_attribute`, `escape`, `BytesText::new`
/// and `write_wrapped` show: `<`, the name, ` key="escaped value"` for each attribute in
/// order, then `/>` or `>`; `</name>`; the escaped text.
#[verifier::external_body]
fn quick_xml_write_event(out: &mut String, w: XmlWrite)
    ensures
        final(out)@ == old(out)@ + written_text(w),
{
    let event = match w {
        XmlWrite::StartTag(name, attrs, empty) => {
            let e = BytesStart::new(name).with_attributes(attrs.iter().map(|a| (a.0.as_str(), a.1.as_str())));
            match empty {
                true => Event::Empty(e),
                false => Event::Start(e),
            }
        },
        XmlWrite::EndTag(name) => Event::End(BytesEnd::new(name)),
        XmlWrite::Text(text) => Event::Text(BytesText::new(text)),
    };
    let mut writer = Writer::new(Vec::new());
    let _ = writer.write_event(event);
    out.push_str(&String::from_utf8_lossy(&writer.into_inner()));
}

/// Calls `quick_xml::escape::unescape`. Claimed: the result is `xml_unescaped` of the
/// raw text, the error dropped; text without `&` comes back as it is (the source
/// looks for references only at `&` and hands such text back borrowed); and text
/// that `quick_xml::escape::escape` wrote comes back as the text it was written
/// from (each of the five entities it writes resolves to its character).
#[verifier::external_body]
fn quick_xml_unescape(raw: &str) -> (r: Option<String>)
    ensures
        match r {
            Some(t) => xml_unescaped(raw@) == Some(t@),
            None => xml_unescaped(raw@) is None,
        },
        !raw@.contains('&') ==> r is Some && r.unwrap()@ == raw@,
        forall|s: Seq<char>| escape_text(s) == raw@ ==> r is Some && r.unwrap()@ == s,
{
    quick_xml::escape::unescape(raw).ok().map(|c| c.into_owned())
}

/// Text content as it reads once its references are replaced; `None` when a
/// reference is malformed or unknown. Text without `&` comes back as it is, and text
/// written by `escape_text` comes back as the text it was written from.
pub fn unescape_text(raw: &str) -> (r: Option<String>)
    ensures
        match r {
            Some(t) => xml_unescaped(raw@) == Some(t@) && text_unescaped(raw@) == Some(t@),
            None => xml_unescaped(raw@) is None && text_unescaped(raw@) is None,
        },
        !raw@.contains('&') ==> r is Some && r.unwrap()@ == raw@,
        forall|s: Seq<char>| escape_text(s) == raw@ ==> r is Some && r.unwrap()@ == s,
{
    let r = quick_xml_unescape(raw);
    proof {
        if raw@.contains('&') && exists|s: Seq<char>| escape_text(s) == raw@ {
            let s = choose|s: Seq<char>| escape_text(s) == raw@;
            assert(r is Some && r.unwrap()@ == s);
        }
    }
    r
}

/// The attributes of a start tag whose content (name, then attributes) is `content`
/// and whose name is the first `name_len` bytes.
pub fn tag_attributes(content: &str, name_len: usize) -> (r: Vec<(String, String)>)
    requires
        name_len <= content.len(),
    ensures
        r.deep_view() == xml_tag_attributes(content@, name_len as nat),
{
    quick_xml_tag_attributes(content, name_len)
}

proof fn lemma_attribute_value_at(attrs: Seq<(Seq<char>, Seq<char>)>, key: Seq<char>, i: int)
    requires
        0 <= i <= attrs.len(),
        forall|j: int| 0 <= j < i ==> attrs[j].0 != key,
    ensures
        attribute_value(attrs, key) == attribute_value(attrs.subrange(i, attrs.len() as int), key),
    decreases i,
{
    if i > 0 {
        let rest = attrs.drop_first();
        assert forall|j: int| 0 <= j < i - 1 implies rest[j].0 != key by {
            assert(rest[j] == attrs[j + 1]);
        }
        lemma_attribute_value_at(rest, key, i - 1);
        assert(rest.subrange(i - 1, rest.len() as int) =~= attrs.subrange(i, attrs.len() as int));
    } else {
        assert(attrs.subrange(0, attrs.len() as int) =~= attrs);
    }
}

/// The value of the first attribute named `key`, if any.
pub fn get_attribute(attrs: &Vec<(String, String)>, key: &str) -> (r: Option<String>)
    ensures
        match r {
            Some(v) => attribute_value(attrs.deep_view(), key@) == Some(v@),
            None => attribute_value(attrs.deep_view(), key@) is None,
        },
{
    let ghost a = attrs.deep_view();
    let mut i: usize = 0;
    while i < attrs.len()
        invariant
            i <= attrs.len(),
            a == attrs.deep_view(),
            forall|j: int| 0 <= j < i ==> a[j].0 != key@,
        decreases attrs.len() - i,
    {
        assert(a[i as int] == (attrs@[i as int].0@, attrs@[i as int].1@));
        if text_equals(attrs[i].0.as_str(), key) {
            proof {
                lemma_attribute_value_at(a, key@, i as int);
                assert(a.subrange(i as int, a.len() as int)[0] == a[i as int]);
            }
            return Some(attrs[i].1.clone());
        }
        i = i + 1;
    }
    proof {
        lemma_attribute_value_at(a, key@, i as int);
        assert(a.subrange(i as int, a.len() as int).len() == 0);
    }
    None
}

/// Appends a start tag (`<name attrs>`), or an empty-element tag (`<name attrs/>`) when
/// `empty`.
pub fn write_start_tag(out: &mut String, name: &str, attrs: &Vec<(String, String)>, empty: bool)
    ensures
        final(out)@ == old(out)@ + start_tag_text(name@, attrs.deep_view(), empty),
{
    quick_xml_write_event(out, XmlWrite::StartTag(name, attrs, empty))
}

/// Appends an end tag `</name>`.
pub fn write_end_tag(out: &mut String, name: &str)
    ensures
        final(out)@ == old(out)@ + end_tag_text(name@),
{
    quick_xml_write_event(out, XmlWrite::EndTag(name))
}

/// Appends escaped text content.
pub fn write_text(out: &mut String, text: &str)
    ensures
        final(out)@ == old(out)@ + escape_text(text@),
{
    quick_xml_write_event(out, XmlWrite::Text(text))
}

// ---------------------------------------------------------------- escaped text reads back

proof fn lemma_escape_char_prefix(c1: char, x: Seq<char>, c2: char, y: Seq<char>)
    requires
        escape_char(c1) + x == escape_char(c2) + y,
    ensures
        c1 == c2,
        x == y,
{
    let e1 = escape_char(c1);
    let e2 = escape_char(c2);
    let s1 = e1 + x;
    let s2 = e2 + y;
    assert(s1[0] == e1[0]);
    assert(s2[0] == e2[0]);
    if e1.len() > 1 && e2.len() > 1 {
        assert(s1[1] == e1[1]);
        assert(s2[1] == e2[1]);
        assert(s1[2] == e1[2]);
        assert(s2[2] == e2[2]);
    }
    assert(e1.len() == e2.len());
    lemma_split_at_length(e1, x, e2, y);
}

/// The escaped text read from the front: the first character escaped, then the rest.
proof fn lemma_escape_text_front(s: Seq<char>)
    requires
        s.len() > 0,
    ensures
        escape_text(s) == escape_char(s[0]) + escape_text(s.drop_first()),
    decreases s.len(),
{
    if s.len() == 1 {
        assert(s.drop_last() =~= Seq::<char>::empty());
        assert(s.drop_first() =~= Seq::<char>::empty());
        assert(escape_text(s.drop_last()) == Seq::<char>::empty());
        assert(escape_text(s.drop_first()) == Seq::<char>::empty());
        assert(escape_text(s) =~= escape_char(s[0]) + escape_text(s.drop_first()));
    } else {
        lemma_escape_text_front(s.drop_last());
        assert(s.drop_last().drop_first() =~= s.drop_first().drop_last());
        assert(s.drop_first().last() == s.last());
        assert(s.drop_last()[0] == s[0]);
        assert(escape_text(s) =~= escape_char(s[0]) + escape_text(s.drop_first()));
    }
}

/// Different texts are escaped differently.
pub proof fn lemma_escape_text_injective(a: Seq<char>, b: Seq<char>)
    requires
        escape_text(a) == escape_text(b),
    ensures
        a == b,
    decreases a.len(),
{
    if a.len() == 0 && b.len() == 0 {
        assert(a =~= b);
    } else if a.len() == 0 {
        lemma_escape_text_front(b);
        assert(escape_text(a) =~= Seq::<char>::empty());
    } else if b.len() == 0 {
        lemma_escape_text_front(a);
        assert(escape_text(b) =~= Seq::<char>::empty());
    } else {
        lemma_escape_text_front(a);
        lemma_escape_text_front(b);
        lemma_escape_char_prefix(a[0], escape_text(a.drop_first()), b[0], escape_text(b.drop_first()));
        lemma_escape_text_injective(a.drop_first(), b.drop_first());
        assert(a =~= seq![a[0]] + a.drop_first());
        assert(b =~= seq![b[0]] + b.drop_first());
    }
}

/// Escaped text holds no `<`, and escaped text without `&` is the text itself.
pub proof fn lemma_escape_text_plain(s: Seq<char>)
    ensures
        !escape_text(s).contains('<'),
        !escape_text(s).contains('&') ==> escape_text(s) == s,
        s.len() > 0 ==> escape_text(s).len() > 0,
    decreases s.len(),
{
    if s.len() > 0 {
        lemma_escape_text_plain(s.drop_last());
        let p = escape_text(s.drop_last());
        let e = escape_char(s.last());
        assert(escape_text(s) == p + e);
        if escape_text(s).contains('<') {
            let i = choose|i: int| 0 <= i < (p + e).len() && (p + e)[i] == '<';
            if i < p.len() {
                assert(p[i] == '<');
            } else {
                assert(e[i - p.len()] == '<');
            }
        }
        if !escape_text(s).contains('&') {
            assert forall|i: int| 0 <= i < p.len() implies p[i] != '&' by {
                assert((p + e)[i] == p[i]);
            }
            assert(e[0] == (p + e)[p.len() as int]);
            assert(s =~= s.drop_last().push(s.last()));
        }
    }
}

/// Text that `escape_text` wrote reads back as the text it was written from.
pub proof fn law_escaped_text_reads_back(s: Seq<char>)
    ensures
        text_unescaped(escape_text(s)) == Some(s),
{
    let raw = escape_text(s);
    lemma_escape_text_plain(s);
    if raw.contains('&') {
        assert(exists|t: Seq<char>| escape_text(t) == raw);
        let t = choose|t: Seq<char>| escape_text(t) == raw;
        lemma_escape_text_injective(t, s);
    }
}

} // verus!
