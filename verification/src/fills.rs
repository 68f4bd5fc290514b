//! The fills of a stylesheet (`<fills>`), referred to by index (`fillId`) from
//! cell formats.
use vstd::prelude::*;
use crate::decimal::{decimal, format_unsigned};
use crate::digest::md5_hex;
use crate::reading::{
    event_views, list_ends_early, item_step, list_read_action, list_read_step, ItemStep, ListEnd,
    ReadAction, XmlEvent, XmlEventKind, XmlEventView,
};
use crate::styles::{fill_after_event, fill_key, fill_xml, law_fill_key_identifies_the_fill, Fill, Style};
use crate::xml::{end_tag_text, start_tag_text, write_end_tag, write_start_tag};

verus! {

#[derive(Clone, Debug, Default)]
pub struct Fills {
    fill: Vec<Fill>,
}

impl View for Fills {
    type V = Seq<Fill>;

    closed spec fn view(&self) -> Seq<Fill> {
        self.fill@
    }
}

/// The fills one after another.
pub open spec fn fills_items_xml(s: Seq<Fill>) -> Seq<char>
    decreases s.len(),
{
    if s.len() == 0 {
        Seq::empty()
    } else {
        fills_items_xml(s.drop_last()) + fill_xml(s.last())
    }
}

/// `<fills count="n">` with the fills and `</fills>`; nothing at all for no fills.
pub open spec fn fills_xml(s: Seq<Fill>) -> Seq<char> {
    if s.len() == 0 {
        Seq::empty()
    } else {
        start_tag_text("fills"@, seq![("count"@, decimal(s.len()))], false) + fills_items_xml(s)
            + end_tag_text("fills"@)
    }
}

/// What `set_style` does: a style without a fill gets 0 and changes nothing;
/// otherwise `r` is the index of the first fill whose hash code is the style's fill's,
/// the list unchanged, or, when there is none, the old length, with the fill added at
/// the end.
pub open spec fn fills_set_style_result(before: Seq<Fill>, after: Seq<Fill>, r: int, style: Style) -> bool {
    match style.fill {
        None => r == 0 && after == before,
        Some(f) => {
            let h = md5_hex(fill_key(f));
            &&& 0 <= r <= before.len()
            &&& forall|j: int| 0 <= j < r ==> md5_hex(fill_key(#[trigger] before[j])) != h
            &&& r < before.len() ==> md5_hex(fill_key(before[r])) == h && after == before
            &&& r == before.len() ==> after == before.push(f)
        },
    }
}

/// Storing the same style's fill twice gives the same `fillId`, and the second time
/// the list does not change: a fill is stored once.
pub proof fn law_set_style_twice_reuses_the_fill(
    s0: Seq<Fill>,
    s1: Seq<Fill>,
    s2: Seq<Fill>,
    r1: int,
    r2: int,
    style: Style,
)
    requires
        fills_set_style_result(s0, s1, r1, style),
        fills_set_style_result(s1, s2, r2, style),
    ensures
        r2 == r1,
        s2 == s1,
{
    if let Some(f) = style.fill {
        let h = md5_hex(fill_key(f));
        assert(s1[r1] == s0[r1] || s1[r1] == f);
        assert(md5_hex(fill_key(s1[r1])) == h);
        if r2 < r1 {
            assert(s1[r2] == s0[r2]);
        }
    }
}

/// The `fillId` that `set_style` gives for a style with a fill holds that very fill,
/// as long as the MD5 of the key texts tells the style's fill apart from the stored
/// fills whose key differs.
pub proof fn law_set_style_gives_the_styles_fill(
    before: Seq<Fill>,
    after: Seq<Fill>,
    r: int,
    style: Style,
    f: Fill,
)
    requires
        fills_set_style_result(before, after, r, style),
        style.fill == Some(f),
        forall|j: int|
            0 <= j < before.len() && md5_hex(fill_key(#[trigger] before[j])) == md5_hex(fill_key(f))
                ==> fill_key(before[j]) == fill_key(f),
    ensures
        0 <= r < after.len(),
        after[r] == f,
{
    if r < before.len() {
        law_fill_key_identifies_the_fill(before[r], f);
    }
}

pub open spec fn empty_fill() -> Fill {
    Fill { pattern_fill: None }
}

/// One event of reading a `<fills>` list: the fills read so far and the fill being
/// read (when inside a `<fill>`) become the next ones; the third part says how the
/// list ended, if it did.
pub open spec fn fills_step(list: Seq<Fill>, cur: Option<Fill>, e: XmlEventView) -> (Seq<Fill>, Option<Fill>, Option<ListEnd>) {
    match cur {
        None => match list_read_action(e.kind, e.name, "fill"@, "fills"@) {
            ReadAction::ReadItem => (list, Some(empty_fill()), None),
            ReadAction::ReadEmptyItem => (list.push(empty_fill()), None, None),
            ReadAction::Finish => (list, None, Some(ListEnd::Finished)),
            ReadAction::Fail => (list, None, Some(ListEnd::Failed)),
            ReadAction::Skip => (list, None, None),
        },
        Some(f) => {
            let f2 = fill_after_event(f, e.kind, e.name, e.attributes);
            match item_step(e.kind, e.name, "fill"@) {
                ItemStep::Continue => (list, Some(f2), None),
                ItemStep::Finish => (list.push(f2), None, None),
                ItemStep::Fail => (list, None, Some(ListEnd::Failed)),
            }
        },
    }
}

/// Reading a `<fills>` list from event `i` on: the fills at the end, how the list
/// ended, and how many events were taken.
pub open spec fn fills_run(list: Seq<Fill>, cur: Option<Fill>, events: Seq<XmlEventView>, i: int) -> (Seq<Fill>, ListEnd, int)
    decreases events.len() - i,
{
    if i < 0 || i >= events.len() {
        (list, ListEnd::Exhausted, i)
    } else {
        let (l2, c2, end) = fills_step(list, cur, events[i]);
        match end {
            Some(x) => (l2, x, i + 1),
            None => fills_run(l2, c2, events, i + 1),
        }
    }
}

impl Fills {
    pub fn new() -> (r: Self)
        ensures
            r@ == Seq::<Fill>::empty(),
    {
        Fills { fill: Vec::new() }
    }

    pub fn fill(&self) -> (r: &[Fill])
        ensures
            r@ == self@,
    {
        self.fill.as_slice()
    }

    pub fn get_fill(&self) -> (r: &[Fill])
        ensures
            r@ == self@,
    {
        self.fill()
    }

    pub fn fill_mut(&mut self) -> (r: &mut Vec<Fill>)
        ensures
            r@ == old(self)@,
            final(self)@ == final(r)@,
    {
        &mut self.fill
    }

    pub fn get_fill_mut(&mut self) -> (r: &mut Vec<Fill>)
        ensures
            r@ == old(self)@,
            final(self)@ == final(r)@,
    {
        self.fill_mut()
    }

    /// Adds a fill at the end.
    pub fn set_fill(&mut self, value: Fill) -> (r: &mut Self)
        ensures
            r@ == old(self)@.push(value),
            *final(self) == *final(r),
    {
        self.fill.push(value);
        self
    }

    /// The `fillId` of a style's fill: the index of the first fill whose hash code is
    /// the style's fill's; when there is none, the fill is added at the end and that
    /// index is returned. A style without a fill gets 0 and changes nothing.
    pub fn set_style(&mut self, style: &Style) -> (r: u32)
        requires
            style.fill is Some ==> old(self)@.len() <= u32::MAX,
        ensures
            fills_set_style_result(old(self)@, final(self)@, r as int, *style),
    {
        match style.fill() {
            Some(v) => {
                let hash_code = v.hash_code();
                let ghost h = md5_hex(fill_key(v));
                let mut id: u32 = 0;
                let n = self.fill.len();
                let mut found = false;
                while (id as usize) < n
                    invariant_except_break
                        id <= n,
                        !found,
                        forall|j: int| 0 <= j < id ==> md5_hex(fill_key(#[trigger] self@[j])) != h,
                    invariant
                        n == self@.len(),
                        n <= u32::MAX,
                        hash_code@ == h,
                        *self == *old(self),
                    ensures
                        id <= n,
                        forall|j: int| 0 <= j < id ==> md5_hex(fill_key(#[trigger] self@[j])) != h,
                        found ==> id < n && md5_hex(fill_key(self@[id as int])) == h,
                        !found ==> id == n,
                    decreases n - id,
                {
                    let c = self.fill[id as usize].hash_code();
                    if c == hash_code {
                        found = true;
                        break;
                    }
                    id = id + 1;
                }
                if !found {
                    self.set_fill(v);
                }
                id
            },
            None => 0,
        }
    }

    /// Decides what to do with an event while reading the `<fills>` list: `<fill>`
    /// starts a fill to read, `<fill/>` is an empty fill that still takes its index,
    /// `</fills>` ends the list.
    pub fn read_step(kind: XmlEventKind, name: &str) -> (r: ReadAction)
        ensures
            r == list_read_action(kind, name@, "fill"@, "fills"@),
    {
        list_read_step(kind, name, "fill", "fills")
    }

    /// Adds the fill for a self-closing `<fill/>`: the default one.
    pub fn read_empty_item(&mut self)
        ensures
            final(self)@ == old(self)@.push(Fill { pattern_fill: None }),
    {
        self.set_fill(Fill::default());
    }

    /// Reads the content of a `<fills>` element (the events after its start tag): each
    /// `<fill>...</fill>` is read into a fill, each `<fill/>` adds an empty one, and
    /// `</fills>` ends the list. Gives how the list ended and how many events were
    /// taken.
    /// The document must not end before the list's end tag: reading such a document
    /// is abandoned before this is called.
    pub fn set_attributes(&mut self, events: &Vec<XmlEvent>) -> (r: (ListEnd, usize))
        requires
            !list_ends_early(event_views(events@), "fill"@, "fills"@, true, false, 0),
        ensures
            ({
                let (l, end, n) = fills_run(old(self)@, None, event_views(events@), 0);
                final(self)@ == l && r.0 == end && r.1 == n
            }),
    {
        let ghost ev = event_views(events@);
        let ghost target = fills_run(old(self)@, None, ev, 0);
        let n = events.len();
        let mut cur: Option<Fill> = None;
        let mut end: Option<ListEnd> = None;
        let mut i: usize = 0;
        while end.is_none() && i < n
            invariant
                n == events@.len(),
                ev == event_views(events@),
                i <= n,
                end is None ==> fills_run(self@, cur, ev, i as int) == target,
                end matches Some(x) ==> target == (self@, x, i as int),
            decreases n - i,
        {
            let e = &events[i];
            assert(ev[i as int] == e@);
            match cur {
                None => {
                    match Self::read_step(e.kind, e.name.as_str()) {
                        ReadAction::ReadItem => {
                            cur = Some(Fill::default());
                        },
                        ReadAction::ReadEmptyItem => {
                            self.read_empty_item();
                        },
                        ReadAction::Finish => {
                            end = Some(ListEnd::Finished);
                        },
                        ReadAction::Fail => {
                            end = Some(ListEnd::Failed);
                        },
                        ReadAction::Skip => {},
                    }
                },
                Some(f) => {
                    let mut f = f;
                    match f.read_event(e.kind, e.name.as_str(), &e.attributes) {
                        ItemStep::Continue => {
                            cur = Some(f);
                        },
                        ItemStep::Finish => {
                            self.set_fill(f);
                            cur = None;
                        },
                        ItemStep::Fail => {
                            end = Some(ListEnd::Failed);
                        },
                    }
                },
            }
            i = i + 1;
        }
        match end {
            Some(x) => (x, i),
            None => (ListEnd::Exhausted, i),
        }
    }

    /// Appends the list as `<fills count="n">...</fills>`, or nothing when empty.
    pub fn write_to(&self, out: &mut String)
        ensures
            final(out)@ == old(out)@ + fills_xml(self@),
    {
        let n = self.fill.len();
        if n == 0 {
            assert(old(out)@ + fills_xml(self@) =~= old(out)@);
            return;
        }
        let mut attrs: Vec<(String, String)> = Vec::new();
        attrs.push((String::from_str("count"), format_unsigned(n as u64)));
        assert(attrs.deep_view() =~= seq![("count"@, decimal(n as nat))]);
        write_start_tag(out, "fills", &attrs, false);
        let ghost head = out@;
        let mut i: usize = 0;
        while i < n
            invariant
                n == self@.len(),
                i <= n,
                out@ == head + fills_items_xml(self@.take(i as int)),
            decreases n - i,
        {
            self.fill[i].write_to(out);
            proof {
                assert(self@.take(i + 1).drop_last() =~= self@.take(i as int));
                assert(self@.take(i + 1).last() == self@[i as int]);
            }
            i = i + 1;
        }
        write_end_tag(out, "fills");
        assert(self@.take(n as int) =~= self@);
    }
}

/// Reading is the same from any point of a longer run of events, with the count of
/// events taken shifted by what comes before.
proof fn lemma_fills_run_shift(list: Seq<Fill>, cur: Option<Fill>, pre: Seq<XmlEventView>, rest: Seq<XmlEventView>, k: int)
    requires
        0 <= k,
    ensures
        ({
            let (l1, e1, n1) = fills_run(list, cur, pre + rest, pre.len() + k);
            let (l2, e2, n2) = fills_run(list, cur, rest, k);
            l1 == l2 && e1 == e2 && n1 == n2 + pre.len()
        }),
    decreases rest.len() - k,
{
    let all = pre + rest;
    if k < rest.len() {
        assert(all[pre.len() + k] == rest[k]);
        let (l2, c2, end) = fills_step(list, cur, rest[k]);
        if end is None {
            lemma_fills_run_shift(l2, c2, pre, rest, k + 1);
        }
    }
}

/// An empty fill written `<fill/>` reads exactly as one written `<fill></fill>`: the
/// same fills come out, in the same places, and the list ends the same way.
pub proof fn law_self_closing_fill_reads_as_empty_element(list: Seq<Fill>, after: Seq<XmlEventView>)
    ensures
        ({
            let empty_tag = XmlEventView {
                kind: XmlEventKind::Empty,
                name: "fill"@,
                attributes: Seq::empty(),
                text: Seq::empty(),
            };
            let start_tag = XmlEventView { kind: XmlEventKind::Start, ..empty_tag };
            let end_tag = XmlEventView { kind: XmlEventKind::End, ..empty_tag };
            let (l1, e1, _) = fills_run(list, None, seq![empty_tag] + after, 0);
            let (l2, e2, _) = fills_run(list, None, seq![start_tag, end_tag] + after, 0);
            l1 == l2 && e1 == e2
        }),
{
    reveal_strlit("fill");
    reveal_strlit("fills");
    reveal_strlit("patternFill");
    let empty_tag = XmlEventView {
        kind: XmlEventKind::Empty,
        name: "fill"@,
        attributes: Seq::empty(),
        text: Seq::empty(),
    };
    let start_tag = XmlEventView { kind: XmlEventKind::Start, ..empty_tag };
    let end_tag = XmlEventView { kind: XmlEventKind::End, ..empty_tag };
    let a = seq![empty_tag] + after;
    let b = seq![start_tag, end_tag] + after;
    assert("fill"@ != "fills"@) by {
        assert("fill"@.len() != "fills"@.len());
    }
    assert(a[0] == empty_tag);
    assert(b[0] == start_tag);
    assert(b[1] == end_tag);
    let l1 = list.push(empty_fill());
    assert(fill_after_event(empty_fill(), XmlEventKind::End, "fill"@, Seq::empty()) == empty_fill());
    assert(list_read_action(XmlEventKind::Empty, "fill"@, "fill"@, "fills"@) == ReadAction::ReadEmptyItem);
    assert(fills_step(list, None, a[0]) == (l1, None::<Fill>, None::<ListEnd>));
    assert(fills_run(list, None, a, 0) == fills_run(l1, None, a, 1));
    assert(list_read_action(XmlEventKind::Start, "fill"@, "fill"@, "fills"@) == ReadAction::ReadItem);
    assert(fills_step(list, None, b[0]) == (list, Some(empty_fill()), None::<ListEnd>));
    assert(fills_run(list, None, b, 0) == fills_run(list, Some(empty_fill()), b, 1));
    assert(item_step(XmlEventKind::End, "fill"@, "fill"@) == ItemStep::Finish);
    assert(fills_step(list, Some(empty_fill()), b[1]) == (l1, None::<Fill>, None::<ListEnd>));
    assert(fills_run(list, Some(empty_fill()), b, 1) == fills_run(l1, None, b, 2));
    lemma_fills_run_shift(l1, None, seq![empty_tag], after, 0);
    lemma_fills_run_shift(l1, None, seq![start_tag, end_tag], after, 0);
}

} // verus!
