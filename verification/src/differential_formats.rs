//! The differential formats of a stylesheet (`<dxfs>`), referred to by index
//! (`dxfId`) from conditional formatting.
use vstd::prelude::*;
use crate::decimal::{decimal, format_unsigned};
use crate::digest::md5_hex;
use crate::reading::{
    event_views, list_ends_early, item_step, list_read_action, list_read_step, ItemStep, ListEnd,
    ReadAction, XmlEvent, XmlEventKind, XmlEventView,
};
use crate::styles::{
    default_style, dxf_after_event, dxf_key, dxf_xml, law_dxf_key_identifies_the_format, DifferentialFormat,
    Style,
};
use crate::xml::{end_tag_text, start_tag_text, write_end_tag, write_start_tag};

verus! {

#[derive(Clone, Debug, Default)]
pub struct DifferentialFormats {
    differential_format: Vec<DifferentialFormat>,
}

impl View for DifferentialFormats {
    type V = Seq<DifferentialFormat>;

    closed spec fn view(&self) -> Seq<DifferentialFormat> {
        self.differential_format@
    }
}

/// The style of a differential format.
pub open spec fn dxf_style(d: DifferentialFormat) -> Style {
    Style { font: d.font, fill: d.fill }
}

/// The differential format that a style is stored as.
pub open spec fn dxf_of_style(s: Style) -> DifferentialFormat {
    DifferentialFormat { font: s.font, fill: s.fill }
}

/// The formats one after another.
pub open spec fn dxfs_items_xml(s: Seq<DifferentialFormat>) -> Seq<char>
    decreases s.len(),
{
    if s.len() == 0 {
        Seq::empty()
    } else {
        dxfs_items_xml(s.drop_last()) + dxf_xml(s.last())
    }
}

/// `<dxfs count="n">` with the formats and `</dxfs>`; nothing at all for no formats.
pub open spec fn dxfs_xml(s: Seq<DifferentialFormat>) -> Seq<char> {
    if s.len() == 0 {
        Seq::empty()
    } else {
        start_tag_text("dxfs"@, seq![("count"@, decimal(s.len()))], false) + dxfs_items_xml(s)
            + end_tag_text("dxfs"@)
    }
}

/// What `set_style` does: `r` is the index of the first format whose hash code is the
/// style's, the list unchanged; or, when there is none, `r` is the old length and
/// the style's format is added at the end.
pub open spec fn dxf_set_style_result(
    before: Seq<DifferentialFormat>,
    after: Seq<DifferentialFormat>,
    r: int,
    style: Style,
) -> bool {
    let h = md5_hex(dxf_key(dxf_of_style(style)));
    &&& 0 <= r <= before.len()
    &&& forall|j: int| 0 <= j < r ==> md5_hex(dxf_key(#[trigger] before[j])) != h
    &&& r < before.len() ==> md5_hex(dxf_key(before[r])) == h && after == before
    &&& r == before.len() ==> after == before.push(dxf_of_style(style))
}

/// Storing the same style twice gives the same `dxfId`, and the second time the list
/// does not change: a style is stored once.
pub proof fn law_set_style_twice_reuses_the_format(
    s0: Seq<DifferentialFormat>,
    s1: Seq<DifferentialFormat>,
    s2: Seq<DifferentialFormat>,
    r1: int,
    r2: int,
    style: Style,
)
    requires
        dxf_set_style_result(s0, s1, r1, style),
        dxf_set_style_result(s1, s2, r2, style),
    ensures
        r2 == r1,
        s2 == s1,
{
    let h = md5_hex(dxf_key(dxf_of_style(style)));
    assert(s1[r1] == s0[r1] || s1[r1] == dxf_of_style(style));
    assert(md5_hex(dxf_key(s1[r1])) == h);
    if r2 < r1 {
        assert(s1[r2] == s0[r2]);
    }
}

/// The `dxfId` that `set_style` gives holds a format of that very style, as long as
/// the MD5 of the key texts tells the style's format apart from the stored formats
/// whose key differs.
pub proof fn law_set_style_gives_a_format_of_the_style(
    before: Seq<DifferentialFormat>,
    after: Seq<DifferentialFormat>,
    r: int,
    style: Style,
)
    requires
        dxf_set_style_result(before, after, r, style),
        forall|j: int|
            0 <= j < before.len() && md5_hex(dxf_key(#[trigger] before[j])) == md5_hex(
                dxf_key(dxf_of_style(style)),
            ) ==> dxf_key(before[j]) == dxf_key(dxf_of_style(style)),
    ensures
        0 <= r < after.len(),
        dxf_style(after[r]) == style,
{
    if r < before.len() {
        law_dxf_key_identifies_the_format(before[r], dxf_of_style(style));
    }
}

pub open spec fn empty_dxf() -> DifferentialFormat {
    DifferentialFormat { font: None, fill: None }
}

/// One event of reading a `<dxfs>` list: the formats read so far and the format being
/// read (when inside a `<dxf>`) become the next ones; the third part says how the list
/// ended, if it did.
pub open spec fn dxfs_step(
    list: Seq<DifferentialFormat>,
    cur: Option<DifferentialFormat>,
    e: XmlEventView,
) -> (Seq<DifferentialFormat>, Option<DifferentialFormat>, Option<ListEnd>) {
    match cur {
        None => match list_read_action(e.kind, e.name, "dxf"@, "dxfs"@) {
            ReadAction::ReadItem => (list, Some(empty_dxf()), None),
            ReadAction::ReadEmptyItem => (list.push(empty_dxf()), None, None),
            ReadAction::Finish => (list, None, Some(ListEnd::Finished)),
            ReadAction::Fail => (list, None, Some(ListEnd::Failed)),
            ReadAction::Skip => (list, None, None),
        },
        Some(d) => {
            let d2 = dxf_after_event(d, e.kind, e.name, e.attributes);
            match item_step(e.kind, e.name, "dxf"@) {
                ItemStep::Continue => (list, Some(d2), None),
                ItemStep::Finish => (list.push(d2), None, None),
                ItemStep::Fail => (list, None, Some(ListEnd::Failed)),
            }
        },
    }
}

/// Reading a `<dxfs>` list from event `i` on: the formats at the end, how the list
/// ended, and how many events were taken.
pub open spec fn dxfs_run(
    list: Seq<DifferentialFormat>,
    cur: Option<DifferentialFormat>,
    events: Seq<XmlEventView>,
    i: int,
) -> (Seq<DifferentialFormat>, ListEnd, int)
    decreases events.len() - i,
{
    if i < 0 || i >= events.len() {
        (list, ListEnd::Exhausted, i)
    } else {
        let (l2, c2, end) = dxfs_step(list, cur, events[i]);
        match end {
            Some(x) => (l2, x, i + 1),
            None => dxfs_run(l2, c2, events, i + 1),
        }
    }
}

impl DifferentialFormats {
    pub fn new() -> (r: Self)
        ensures
            r@ == Seq::<DifferentialFormat>::empty(),
    {
        DifferentialFormats { differential_format: Vec::new() }
    }

    pub fn differential_format(&self) -> (r: &[DifferentialFormat])
        ensures
            r@ == self@,
    {
        self.differential_format.as_slice()
    }

    pub fn get_differential_format(&self) -> (r: &[DifferentialFormat])
        ensures
            r@ == self@,
    {
        self.differential_format()
    }

    pub fn differential_format_mut(&mut self) -> (r: &mut Vec<DifferentialFormat>)
        ensures
            r@ == old(self)@,
            final(self)@ == final(r)@,
    {
        &mut self.differential_format
    }

    pub fn get_differential_format_mut(&mut self) -> (r: &mut Vec<DifferentialFormat>)
        ensures
            r@ == old(self)@,
            final(self)@ == final(r)@,
    {
        self.differential_format_mut()
    }

    /// Adds a format at the end.
    pub fn set_differential_format(&mut self, value: DifferentialFormat) -> (r: &mut Self)
        ensures
            r@ == old(self)@.push(value),
            *final(self) == *final(r),
    {
        self.differential_format.push(value);
        self
    }

    /// The style for a `dxfId`; the default style when `id` is out of range.
    pub fn style(&self, id: usize) -> (r: Style)
        ensures
            r == (if id < self@.len() {
                dxf_style(self@[id as int])
            } else {
                default_style()
            }),
    {
        if id < self.differential_format.len() {
            self.differential_format[id].style()
        } else {
            DifferentialFormat::default().style()
        }
    }

    pub fn get_style(&self, id: usize) -> (r: Style)
        ensures
            r == (if id < self@.len() {
                dxf_style(self@[id as int])
            } else {
                default_style()
            }),
    {
        self.style(id)
    }

    /// The `dxfId` of a style: the index of the first format whose hash code is the
    /// style's; when there is none, the style is added at the end and that index is
    /// returned.
    pub fn set_style(&mut self, style: &Style) -> (r: u32)
        requires
            old(self)@.len() <= u32::MAX,
        ensures
            dxf_set_style_result(old(self)@, final(self)@, r as int, *style),
    {
        let mut differential_format = DifferentialFormat::default();
        differential_format.set_style(style);
        let hash_code = differential_format.hash_code();
        let ghost h = md5_hex(dxf_key(dxf_of_style(*style)));
        let mut id: u32 = 0;
        let n = self.differential_format.len();
        let mut found = false;
        while (id as usize) < n
            invariant_except_break
                id <= n,
                !found,
                forall|j: int| 0 <= j < id ==> md5_hex(dxf_key(#[trigger] self@[j])) != h,
            invariant
                n == self@.len(),
                n <= u32::MAX,
                hash_code@ == h,
                *self == *old(self),
            ensures
                id <= n,
                forall|j: int| 0 <= j < id ==> md5_hex(dxf_key(#[trigger] self@[j])) != h,
                found ==> id < n && md5_hex(dxf_key(self@[id as int])) == h,
                !found ==> id == n,
            decreases n - id,
        {
            let v = self.differential_format[id as usize].hash_code();
            if v == hash_code {
                found = true;
                break;
            }
            id = id + 1;
        }
        if !found {
            self.set_differential_format(differential_format);
        }
        id
    }

    /// Decides what to do with an event while reading the `<dxfs>` list: `<dxf>`
    /// starts a format to read, `<dxf/>` is an empty format that still takes its
    /// index, `</dxfs>` ends the list.
    pub fn read_step(kind: XmlEventKind, name: &str) -> (r: ReadAction)
        ensures
            r == list_read_action(kind, name@, "dxf"@, "dxfs"@),
    {
        list_read_step(kind, name, "dxf", "dxfs")
    }

    /// Adds the format for a self-closing `<dxf/>`: the default one.
    pub fn read_empty_item(&mut self)
        ensures
            final(self)@ == old(self)@.push(DifferentialFormat { font: None, fill: None }),
    {
        self.set_differential_format(DifferentialFormat::default());
    }

    /// Reads the content of a `<dxfs>` element (the events after its start tag): each
    /// `<dxf>...</dxf>` is read into a format, each `<dxf/>` adds an empty one, and
    /// `</dxfs>` ends the list. Gives how the list ended and how many events were taken.
    /// The document must not end before the list's end tag: reading such a document
    /// is abandoned before this is called.
    pub fn set_attributes(&mut self, events: &Vec<XmlEvent>) -> (r: (ListEnd, usize))
        requires
            !list_ends_early(event_views(events@), "dxf"@, "dxfs"@, true, false, 0),
        ensures
            ({
                let (l, end, n) = dxfs_run(old(self)@, None, event_views(events@), 0);
                final(self)@ == l && r.0 == end && r.1 == n
            }),
    {
        let ghost ev = event_views(events@);
        let ghost target = dxfs_run(old(self)@, None, ev, 0);
        let n = events.len();
        let mut cur: Option<DifferentialFormat> = None;
        let mut end: Option<ListEnd> = None;
        let mut i: usize = 0;
        while end.is_none() && i < n
            invariant
                n == events@.len(),
                ev == event_views(events@),
                i <= n,
                end is None ==> dxfs_run(self@, cur, ev, i as int) == target,
                end matches Some(x) ==> target == (self@, x, i as int),
            decreases n - i,
        {
            let e = &events[i];
            assert(ev[i as int] == e@);
            match cur {
                None => {
                    match Self::read_step(e.kind, e.name.as_str()) {
                        ReadAction::ReadItem => {
                            cur = Some(DifferentialFormat::default());
                        },
                        ReadAction::ReadEmptyItem => {
                            self.read_empty_item();
                        },
                        ReadAction::Finish => {
                            end = Some(ListEnd::Finished);
                        },
                        ReadAction::Fail => {
                            end = Some(ListEnd::Failed);
                        },
                        ReadAction::Skip => {},
                    }
                },
                Some(d) => {
                    let mut d = d;
                    match d.read_event(e.kind, e.name.as_str(), &e.attributes) {
                        ItemStep::Continue => {
                            cur = Some(d);
                        },
                        ItemStep::Finish => {
                            self.set_differential_format(d);
                            cur = None;
                        },
                        ItemStep::Fail => {
                            end = Some(ListEnd::Failed);
                        },
                    }
                },
            }
            i = i + 1;
        }
        match end {
            Some(x) => (x, i),
            None => (ListEnd::Exhausted, i),
        }
    }

    /// Appends the list as `<dxfs count="n">...</dxfs>`, or nothing when empty.
    pub fn write_to(&self, out: &mut String)
        ensures
            final(out)@ == old(out)@ + dxfs_xml(self@),
    {
        let n = self.differential_format.len();
        if n == 0 {
            assert(old(out)@ + dxfs_xml(self@) =~= old(out)@);
            return;
        }
        let ghost start = out@;
        let mut attrs: Vec<(String, String)> = Vec::new();
        attrs.push((String::from_str("count"), format_unsigned(n as u64)));
        assert(attrs.deep_view() =~= seq![("count"@, decimal(n as nat))]);
        write_start_tag(out, "dxfs", &attrs, false);
        let ghost head = out@;
        let mut i: usize = 0;
        while i < n
            invariant
                n == self@.len(),
                i <= n,
                out@ == head + dxfs_items_xml(self@.take(i as int)),
            decreases n - i,
        {
            self.differential_format[i].write_to(out);
            proof {
                assert(self@.take(i + 1).drop_last() =~= self@.take(i as int));
                assert(self@.take(i + 1).last() == self@[i as int]);
            }
            i = i + 1;
        }
        write_end_tag(out, "dxfs");
        assert(self@.take(n as int) =~= self@);
    }
}

/// Reading is the same from any point of a longer run of events, with the count of
/// events taken shifted by what comes before.
proof fn lemma_dxfs_run_shift(
    list: Seq<DifferentialFormat>,
    cur: Option<DifferentialFormat>,
    pre: Seq<XmlEventView>,
    rest: Seq<XmlEventView>,
    k: int,
)
    requires
        0 <= k,
    ensures
        ({
            let (l1, e1, n1) = dxfs_run(list, cur, pre + rest, pre.len() + k);
            let (l2, e2, n2) = dxfs_run(list, cur, rest, k);
            l1 == l2 && e1 == e2 && n1 == n2 + pre.len()
        }),
    decreases rest.len() - k,
{
    let all = pre + rest;
    if k < rest.len() {
        assert(all[pre.len() + k] == rest[k]);
        let (l2, c2, end) = dxfs_step(list, cur, rest[k]);
        if end is None {
            lemma_dxfs_run_shift(l2, c2, pre, rest, k + 1);
        }
    }
}

/// An empty format written `<dxf/>` reads exactly as one written `<dxf></dxf>`: the
/// same formats come out, in the same places, and the list ends the same way.
pub proof fn law_self_closing_dxf_reads_as_empty_element(
    list: Seq<DifferentialFormat>,
    after: Seq<XmlEventView>,
)
    ensures
        ({
            let empty_tag = XmlEventView {
                kind: XmlEventKind::Empty,
                name: "dxf"@,
                attributes: Seq::empty(),
                text: Seq::empty(),
            };
            let start_tag = XmlEventView { kind: XmlEventKind::Start, ..empty_tag };
            let end_tag = XmlEventView { kind: XmlEventKind::End, ..empty_tag };
            let (l1, e1, _) = dxfs_run(list, None, seq![empty_tag] + after, 0);
            let (l2, e2, _) = dxfs_run(list, None, seq![start_tag, end_tag] + after, 0);
            l1 == l2 && e1 == e2
        }),
{
    reveal_strlit("dxf");
    reveal_strlit("dxfs");
    reveal_strlit("font");
    reveal_strlit("color");
    reveal_strlit("fill");
    reveal_strlit("patternFill");
    let empty_tag = XmlEventView {
        kind: XmlEventKind::Empty,
        name: "dxf"@,
        attributes: Seq::empty(),
        text: Seq::empty(),
    };
    let start_tag = XmlEventView { kind: XmlEventKind::Start, ..empty_tag };
    let end_tag = XmlEventView { kind: XmlEventKind::End, ..empty_tag };
    let a = seq![empty_tag] + after;
    let b = seq![start_tag, end_tag] + after;
    assert("dxf"@ != "dxfs"@) by {
        assert("dxf"@.len() != "dxfs"@.len());
    }
    assert(a[0] == empty_tag);
    assert(b[0] == start_tag);
    assert(b[1] == end_tag);
    assert(dxf_after_event(empty_dxf(), XmlEventKind::End, "dxf"@, Seq::empty()) == empty_dxf());
    let l1 = list.push(empty_dxf());
    assert(list_read_action(XmlEventKind::Empty, "dxf"@, "dxf"@, "dxfs"@) == ReadAction::ReadEmptyItem);
    assert(dxfs_step(list, None, a[0]) == (l1, None::<DifferentialFormat>, None::<ListEnd>));
    assert(dxfs_run(list, None, a, 0) == dxfs_run(l1, None, a, 1));
    assert(list_read_action(XmlEventKind::Start, "dxf"@, "dxf"@, "dxfs"@) == ReadAction::ReadItem);
    assert(dxfs_step(list, None, b[0]) == (list, Some(empty_dxf()), None::<ListEnd>));
    assert(dxfs_run(list, None, b, 0) == dxfs_run(list, Some(empty_dxf()), b, 1));
    assert(item_step(XmlEventKind::End, "dxf"@, "dxf"@) == ItemStep::Finish);
    assert(dxfs_step(list, Some(empty_dxf()), b[1]) == (l1, None::<DifferentialFormat>, None::<ListEnd>));
    assert(dxfs_run(list, Some(empty_dxf()), b, 1) == dxfs_run(l1, None, b, 2));
    lemma_dxfs_run_shift(l1, None, seq![empty_tag], after, 0);
    lemma_dxfs_run_shift(l1, None, seq![start_tag, end_tag], after, 0);
}

} // verus!
