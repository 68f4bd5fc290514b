//! The most recently used colors of a stylesheet (`<mruColors>`).
use vstd::prelude::*;
use crate::reading::{
    event_views, list_ends_early, list_read_action, list_read_step, ListEnd, ReadAction, XmlEvent,
    XmlEventKind, XmlEventView,
};
use crate::styles::{color_of_attributes, color_xml, Color};
use crate::xml::{end_tag_text, start_tag_text, write_end_tag, write_start_tag};

verus! {

#[derive(Clone, Debug, Default)]
pub struct MruColors {
    color: Vec<Color>,
}

impl View for MruColors {
    type V = Seq<Color>;

    closed spec fn view(&self) -> Seq<Color> {
        self.color@
    }
}

/// The colors one after another.
pub open spec fn colors_items_xml(s: Seq<Color>) -> Seq<char>
    decreases s.len(),
{
    if s.len() == 0 {
        Seq::empty()
    } else {
        colors_items_xml(s.drop_last()) + color_xml(s.last())
    }
}

/// `<mruColors>` with the colors and `</mruColors>`; nothing at all for no colors.
pub open spec fn mru_colors_xml(s: Seq<Color>) -> Seq<char> {
    if s.len() == 0 {
        Seq::empty()
    } else {
        start_tag_text("mruColors"@, Seq::empty(), false) + colors_items_xml(s) + end_tag_text(
            "mruColors"@,
        )
    }
}

/// One event of reading a `<mruColors>` list: the colors read so far become the next
/// ones; the second part says how the list ended, if it did. A color takes its value
/// from its tag's attributes alone, whether the tag is self-closing or not: a color's
/// start tag adds the color at once, and whatever follows it up to its end tag is
/// read as part of the list.
pub open spec fn colors_step(list: Seq<Color>, e: XmlEventView) -> (Seq<Color>, Option<ListEnd>) {
    match list_read_action(e.kind, e.name, "color"@, "mruColors"@) {
        ReadAction::ReadItem => (list.push(color_of_attributes(e.attributes)), None),
        ReadAction::ReadEmptyItem => (list.push(color_of_attributes(e.attributes)), None),
        ReadAction::Finish => (list, Some(ListEnd::Finished)),
        ReadAction::Fail => (list, Some(ListEnd::Failed)),
        ReadAction::Skip => (list, None),
    }
}

/// Reading a `<mruColors>` list from event `i` on: the colors at the end, how the list
/// ended, and how many events were taken.
pub open spec fn colors_run(list: Seq<Color>, events: Seq<XmlEventView>, i: int) -> (Seq<Color>, ListEnd, int)
    decreases events.len() - i,
{
    if i < 0 || i >= events.len() {
        (list, ListEnd::Exhausted, i)
    } else {
        let (l2, end) = colors_step(list, events[i]);
        match end {
            Some(x) => (l2, x, i + 1),
            None => colors_run(l2, events, i + 1),
        }
    }
}

impl MruColors {
    pub fn new() -> (r: Self)
        ensures
            r@ == Seq::<Color>::empty(),
    {
        MruColors { color: Vec::new() }
    }

    pub fn color(&self) -> (r: &[Color])
        ensures
            r@ == self@,
    {
        self.color.as_slice()
    }

    pub fn get_color(&self) -> (r: &[Color])
        ensures
            r@ == self@,
    {
        self.color()
    }

    pub fn color_mut(&mut self) -> (r: &mut Vec<Color>)
        ensures
            r@ == old(self)@,
            final(self)@ == final(r)@,
    {
        &mut self.color
    }

    pub fn get_color_mut(&mut self) -> (r: &mut Vec<Color>)
        ensures
            r@ == old(self)@,
            final(self)@ == final(r)@,
    {
        self.color_mut()
    }

    /// Adds a color at the end.
    pub fn set_color(&mut self, value: Color) -> (r: &mut Self)
        ensures
            r@ == old(self)@.push(value),
            *final(self) == *final(r),
    {
        self.color.push(value);
        self
    }

    /// Decides what to do with an event while reading the `<mruColors>` list. A color
    /// carries its value in attributes, so `<color .../>` (the usual spelling) is read
    /// like `<color ...>`; `</mruColors>` ends the list.
    pub fn read_step(kind: XmlEventKind, name: &str) -> (r: ReadAction)
        ensures
            r == list_read_action(kind, name@, "color"@, "mruColors"@),
    {
        list_read_step(kind, name, "color", "mruColors")
    }

    /// Adds the color that a `<color ...>` or `<color .../>` tag's attributes give.
    pub fn read_empty_item(&mut self, attrs: &Vec<(String, String)>)
        ensures
            final(self)@ == old(self)@.push(color_of_attributes(attrs.deep_view())),
    {
        self.set_color(Color::from_attributes(attrs));
    }

    /// Reads the content of a `<mruColors>` element (the events after its start tag):
    /// each `<color .../>` or `<color ...>` adds the color its attributes give, and
    /// `</mruColors>` ends the list. Gives how the list ended and how many events were
    /// taken.
    /// The document must not end before the list's end tag: reading such a document
    /// is abandoned before this is called.
    pub fn set_attributes(&mut self, events: &Vec<XmlEvent>) -> (r: (ListEnd, usize))
        requires
            !list_ends_early(event_views(events@), "color"@, "mruColors"@, false, false, 0),
        ensures
            ({
                let (l, end, n) = colors_run(old(self)@, event_views(events@), 0);
                final(self)@ == l && r.0 == end && r.1 == n
            }),
    {
        let ghost ev = event_views(events@);
        let ghost target = colors_run(old(self)@, ev, 0);
        let n = events.len();
        let mut end: Option<ListEnd> = None;
        let mut i: usize = 0;
        while end.is_none() && i < n
            invariant
                n == events@.len(),
                ev == event_views(events@),
                i <= n,
                end is None ==> colors_run(self@, ev, i as int) == target,
                end matches Some(x) ==> target == (self@, x, i as int),
            decreases n - i,
        {
            let e = &events[i];
            assert(ev[i as int] == e@);
            match Self::read_step(e.kind, e.name.as_str()) {
                ReadAction::ReadItem => {
                    self.read_empty_item(&e.attributes);
                },
                ReadAction::ReadEmptyItem => {
                    self.read_empty_item(&e.attributes);
                },
                ReadAction::Finish => {
                    end = Some(ListEnd::Finished);
                },
                ReadAction::Fail => {
                    end = Some(ListEnd::Failed);
                },
                ReadAction::Skip => {},
            }
            i = i + 1;
        }
        match end {
            Some(x) => (x, i),
            None => (ListEnd::Exhausted, i),
        }
    }

    /// Appends the list as `<mruColors>...</mruColors>`, or nothing when empty.
    pub fn write_to(&self, out: &mut String)
        ensures
            final(out)@ == old(out)@ + mru_colors_xml(self@),
    {
        let n = self.color.len();
        if n == 0 {
            assert(old(out)@ + mru_colors_xml(self@) =~= old(out)@);
            return;
        }
        let attrs: Vec<(String, String)> = Vec::new();
        assert(attrs.deep_view() =~= Seq::<(Seq<char>, Seq<char>)>::empty());
        write_start_tag(out, "mruColors", &attrs, false);
        let ghost head = out@;
        let mut i: usize = 0;
        while i < n
            invariant
                n == self@.len(),
                i <= n,
                out@ == head + colors_items_xml(self@.take(i as int)),
            decreases n - i,
        {
            self.color[i].write_to_color(out);
            proof {
                assert(self@.take(i + 1).drop_last() =~= self@.take(i as int));
                assert(self@.take(i + 1).last() == self@[i as int]);
            }
            i = i + 1;
        }
        write_end_tag(out, "mruColors");
        assert(self@.take(n as int) =~= self@);
    }
}

/// Reading is the same from any point of a longer run of events, with the count of
/// events taken shifted by what comes before.
proof fn lemma_colors_run_shift(list: Seq<Color>, pre: Seq<XmlEventView>, rest: Seq<XmlEventView>, k: int)
    requires
        0 <= k,
    ensures
        ({
            let (l1, e1, n1) = colors_run(list, pre + rest, pre.len() + k);
            let (l2, e2, n2) = colors_run(list, rest, k);
            l1 == l2 && e1 == e2 && n1 == n2 + pre.len()
        }),
    decreases rest.len() - k,
{
    let all = pre + rest;
    if k < rest.len() {
        assert(all[pre.len() + k] == rest[k]);
        let (l2, end) = colors_step(list, rest[k]);
        if end is None {
            lemma_colors_run_shift(l2, pre, rest, k + 1);
        }
    }
}

/// A color written `<color .../>` reads exactly as one written
/// `<color ...></color>` with the same attributes: the same colors come out, in the
/// same places, and the list ends the same way.
pub proof fn law_self_closing_color_reads_as_element(
    list: Seq<Color>,
    attrs: Seq<(Seq<char>, Seq<char>)>,
    after: Seq<XmlEventView>,
)
    ensures
        ({
            let empty_tag = XmlEventView {
                kind: XmlEventKind::Empty,
                name: "color"@,
                attributes: attrs,
                text: Seq::empty(),
            };
            let start_tag = XmlEventView { kind: XmlEventKind::Start, ..empty_tag };
            let end_tag = XmlEventView { kind: XmlEventKind::End, attributes: Seq::empty(), ..empty_tag };
            let (l1, e1, _) = colors_run(list, seq![empty_tag] + after, 0);
            let (l2, e2, _) = colors_run(list, seq![start_tag, end_tag] + after, 0);
            l1 == l2 && e1 == e2
        }),
{
    reveal_strlit("color");
    reveal_strlit("mruColors");
    let empty_tag = XmlEventView {
        kind: XmlEventKind::Empty,
        name: "color"@,
        attributes: attrs,
        text: Seq::empty(),
    };
    let start_tag = XmlEventView { kind: XmlEventKind::Start, ..empty_tag };
    let end_tag = XmlEventView { kind: XmlEventKind::End, attributes: Seq::empty(), ..empty_tag };
    let a = seq![empty_tag] + after;
    let b = seq![start_tag, end_tag] + after;
    assert("color"@ != "mruColors"@) by {
        assert("color"@.len() != "mruColors"@.len());
    }
    assert(a[0] == empty_tag);
    assert(b[0] == start_tag);
    assert(b[1] == end_tag);
    let l1 = list.push(color_of_attributes(attrs));
    assert(colors_step(list, a[0]) == (l1, None::<ListEnd>));
    assert(colors_run(list, a, 0) == colors_run(l1, a, 1));
    assert(colors_step(list, b[0]) == (l1, None::<ListEnd>));
    assert(colors_run(list, b, 0) == colors_run(l1, b, 1));
    assert(list_read_action(XmlEventKind::End, "color"@, "color"@, "mruColors"@) == ReadAction::Skip);
    assert(colors_step(l1, b[1]) == (l1, None::<ListEnd>));
    assert(colors_run(l1, b, 1) == colors_run(l1, b, 2));
    lemma_colors_run_shift(l1, seq![empty_tag], after, 0);
    lemma_colors_run_shift(l1, seq![start_tag, end_tag], after, 0);
}

} // verus!
