//! Deciding what to do with each event while the elements of a list are read from
//! a document. The caller pulls the events from an XML reader, tells each one's kind
//! and local name to `list_read_step`, and does what comes back.
use vstd::prelude::*;
use crate::text::text_equals;
use crate::xml::{end_tag_text, start_tag_text};

verus! {

/// The kind of an XML event, as far as reading a list needs to tell them apart.
#[derive(Clone, Copy, Debug, PartialEq, Eq, Structural)]
pub enum XmlEventKind {
    /// A start tag `<name ...>`.
    Start,
    /// An empty-element tag `<name .../>`.
    Empty,
    /// An end tag `</name>`.
    End,
    /// Text content.
    Text,
    /// The end of the document.
    Eof,
    /// Anything else (text, comments, declarations).
    Other,
}

/// An event of a document, as the readers of this crate take it: its kind, the local
/// name of its tag (start, empty or end), the attributes of a start or empty tag,
/// and the raw (still escaped) text of a text event.
#[derive(Clone, Debug)]
pub struct XmlEvent {
    pub kind: XmlEventKind,
    pub name: String,
    pub attributes: Vec<(String, String)>,
    pub text: String,
}

pub struct XmlEventView {
    pub kind: XmlEventKind,
    pub name: Seq<char>,
    pub attributes: Seq<(Seq<char>, Seq<char>)>,
    pub text: Seq<char>,
}

impl View for XmlEvent {
    type V = XmlEventView;

    open spec fn view(&self) -> XmlEventView {
        XmlEventView {
            kind: self.kind,
            name: self.name@,
            attributes: self.attributes.deep_view(),
            text: self.text@,
        }
    }
}

/// The views of a run of events.
pub open spec fn event_views(events: Seq<XmlEvent>) -> Seq<XmlEventView> {
    events.map_values(|e: XmlEvent| e@)
}

/// How reading a list from a run of events ended.
#[derive(Clone, Copy, Debug, PartialEq, Eq, Structural)]
pub enum ListEnd {
    /// The list's end tag was read; the events after it are left.
    Finished,
    /// The document ended (or an item could not be read) before the list's end tag.
    Failed,
    /// The events ran out before the list's end tag.
    Exhausted,
}

/// What to do with an event while reading a list.
#[derive(Clone, Copy, Debug, PartialEq, Eq, Structural)]
pub enum ReadAction {
    /// An item begins: read it up to its end tag, then add it to the list.
    ReadItem,
    /// A self-closing item: add it to the list from its attributes alone. It still
    /// takes its place (and its index) in the list.
    ReadEmptyItem,
    /// The list's end tag: the list is complete.
    Finish,
    /// The document ended before the list's end tag.
    Fail,
    /// Nothing to do.
    Skip,
}

/// The action for an event of kind `kind` naming `name`, in a list whose items are
/// `item` elements inside a `list` element.
pub open spec fn list_read_action(kind: XmlEventKind, name: Seq<char>, item: Seq<char>, list: Seq<char>) -> ReadAction {
    match kind {
        XmlEventKind::Start => if name == item {
            ReadAction::ReadItem
        } else {
            ReadAction::Skip
        },
        XmlEventKind::Empty => if name == item {
            ReadAction::ReadEmptyItem
        } else {
            ReadAction::Skip
        },
        XmlEventKind::End => if name == list {
            ReadAction::Finish
        } else {
            ReadAction::Skip
        },
        XmlEventKind::Eof => ReadAction::Fail,
        XmlEventKind::Text => ReadAction::Skip,
        XmlEventKind::Other => ReadAction::Skip,
    }
}

/// Where reading an item stands after an event.
#[derive(Clone, Copy, Debug, PartialEq, Eq, Structural)]
pub enum ItemStep {
    /// The item goes on.
    Continue,
    /// The item's end tag: the item is complete.
    Finish,
    /// The document ended inside the item.
    Fail,
}

/// The step for an event inside an `item` element: its end tag finishes it, the end
/// of the document fails it, anything else goes on.
pub open spec fn item_step(kind: XmlEventKind, name: Seq<char>, item: Seq<char>) -> ItemStep {
    match kind {
        XmlEventKind::End => if name == item {
            ItemStep::Finish
        } else {
            ItemStep::Continue
        },
        XmlEventKind::Eof => ItemStep::Fail,
        _ => ItemStep::Continue,
    }
}

/// Whether an event opens an element named `name` (as a start tag or an empty-element
/// tag).
pub open spec fn opens(kind: XmlEventKind, event_name: Seq<char>, name: Seq<char>) -> bool {
    (kind == XmlEventKind::Start || kind == XmlEventKind::Empty) && event_name == name
}

/// Where reading an `item` element stands after an event.
pub fn item_read_step(kind: XmlEventKind, name: &str, item: &str) -> (r: ItemStep)
    ensures
        r == item_step(kind, name@, item@),
{
    match kind {
        XmlEventKind::End => if text_equals(name, item) {
            ItemStep::Finish
        } else {
            ItemStep::Continue
        },
        XmlEventKind::Eof => ItemStep::Fail,
        _ => ItemStep::Continue,
    }
}

/// Whether an event opens an element named `name`.
pub fn event_opens(kind: XmlEventKind, event_name: &str, name: &str) -> (r: bool)
    ensures
        r == opens(kind, event_name@, name@),
{
    (kind == XmlEventKind::Start || kind == XmlEventKind::Empty) && text_equals(event_name, name)
}

/// Whether an action adds exactly one item to the list.
pub open spec fn adds_item(a: ReadAction) -> bool {
    a == ReadAction::ReadItem || a == ReadAction::ReadEmptyItem
}

/// How many items a run of events adds to a list.
pub open spec fn items_added(events: Seq<(XmlEventKind, Seq<char>)>, item: Seq<char>, list: Seq<char>) -> nat
    decreases events.len(),
{
    if events.len() == 0 {
        0
    } else {
        items_added(events.drop_last(), item, list) + if adds_item(
            list_read_action(events.last().0, events.last().1, item, list),
        ) {
            1nat
        } else {
            0nat
        }
    }
}

/// Decides what to do with one event while reading a list of `item` elements that
/// ends with `</list>`.
pub fn list_read_step(kind: XmlEventKind, name: &str, item: &str, list: &str) -> (r: ReadAction)
    ensures
        r == list_read_action(kind, name@, item@, list@),
{
    match kind {
        XmlEventKind::Start => if text_equals(name, item) {
            ReadAction::ReadItem
        } else {
            ReadAction::Skip
        },
        XmlEventKind::Empty => if text_equals(name, item) {
            ReadAction::ReadEmptyItem
        } else {
            ReadAction::Skip
        },
        XmlEventKind::End => if text_equals(name, list) {
            ReadAction::Finish
        } else {
            ReadAction::Skip
        },
        XmlEventKind::Eof => ReadAction::Fail,
        XmlEventKind::Text => ReadAction::Skip,
        XmlEventKind::Other => ReadAction::Skip,
    }
}

/// A self-closing item counts exactly as an item with content does: whether an item
/// element is written `<item/>` or `<item>...</item>`, it adds one item, so the items
/// after it keep their indexes.
pub proof fn law_self_closing_item_keeps_its_index(
    before: Seq<(XmlEventKind, Seq<char>)>,
    after: Seq<(XmlEventKind, Seq<char>)>,
    item: Seq<char>,
    list: Seq<char>,
)
    requires
        item != list,
    ensures
        items_added(before + seq![(XmlEventKind::Empty, item)] + after, item, list)
            == items_added(before + seq![(XmlEventKind::Start, item), (XmlEventKind::End, item)] + after, item, list),
    decreases after.len(),
{
    if after.len() == 0 {
        let a = before + seq![(XmlEventKind::Empty, item)];
        let b = before + seq![(XmlEventKind::Start, item), (XmlEventKind::End, item)];
        assert(a + after =~= a);
        assert(b + after =~= b);
        assert(a.drop_last() =~= before);
        assert(b.drop_last().drop_last() =~= before);
        assert(b.drop_last() =~= before + seq![(XmlEventKind::Start, item)]);
        assert(items_added(a, item, list) == items_added(before, item, list) + 1);
        assert(items_added(b.drop_last(), item, list) == items_added(before, item, list) + 1);
        assert(list_read_action(XmlEventKind::End, item, item, list) == ReadAction::Skip);
        assert(items_added(b, item, list) == items_added(b.drop_last(), item, list));
    } else {
        let a = before + seq![(XmlEventKind::Empty, item)] + after;
        let b = before + seq![(XmlEventKind::Start, item), (XmlEventKind::End, item)] + after;
        law_self_closing_item_keeps_its_index(before, after.drop_last(), item, list);
        assert(a.drop_last() =~= before + seq![(XmlEventKind::Empty, item)] + after.drop_last());
        assert(b.drop_last() =~= before + seq![(XmlEventKind::Start, item), (XmlEventKind::End, item)]
            + after.drop_last());
        assert(a.last() == after.last());
        assert(b.last() == after.last());
        assert(items_added(a, item, list) == items_added(a.drop_last(), item, list) + (if adds_item(
            list_read_action(after.last().0, after.last().1, item, list),
        ) {
            1nat
        } else {
            0nat
        }));
        assert(items_added(b, item, list) == items_added(b.drop_last(), item, list) + (if adds_item(
            list_read_action(after.last().0, after.last().1, item, list),
        ) {
            1nat
        } else {
            0nat
        }));
    }
}

/// Whether the document ends before the list's end tag, when the events from `i` on
/// are read as a list of `item` elements closed by `</list>`: an end-of-document
/// event comes first, between the items or inside one. `nested` says whether an
/// item's start tag opens an item that runs up to its own end tag; `in_item`, whether
/// such an item is open at event `i`.
pub open spec fn list_ends_early(
    events: Seq<XmlEventView>,
    item: Seq<char>,
    list: Seq<char>,
    nested: bool,
    in_item: bool,
    i: int,
) -> bool
    decreases events.len() - i,
{
    if i < 0 || i >= events.len() {
        false
    } else if in_item {
        match item_step(events[i].kind, events[i].name, item) {
            ItemStep::Continue => list_ends_early(events, item, list, nested, true, i + 1),
            ItemStep::Finish => list_ends_early(events, item, list, nested, false, i + 1),
            ItemStep::Fail => true,
        }
    } else {
        match list_read_action(events[i].kind, events[i].name, item, list) {
            ReadAction::ReadItem => list_ends_early(events, item, list, nested, nested, i + 1),
            ReadAction::Finish => false,
            ReadAction::Fail => true,
            _ => list_ends_early(events, item, list, nested, false, i + 1),
        }
    }
}

/// Whether the document ends before the list's end tag in `events`, the events that
/// follow the list's start tag (see `list_ends_early`).
pub fn ends_before_list_end(events: &Vec<XmlEvent>, item: &str, list: &str, nested: bool) -> (r: bool)
    ensures
        r == list_ends_early(event_views(events@), item@, list@, nested, false, 0),
{
    let ghost ev = event_views(events@);
    let n = events.len();
    let mut in_item = false;
    let mut i: usize = 0;
    while i < n
        invariant
            n == events@.len(),
            ev == event_views(events@),
            i <= n,
            list_ends_early(ev, item@, list@, nested, in_item, i as int) == list_ends_early(
                ev,
                item@,
                list@,
                nested,
                false,
                0,
            ),
        decreases n - i,
    {
        let e = &events[i];
        assert(ev[i as int] == e@);
        if in_item {
            match item_read_step(e.kind, e.name.as_str(), item) {
                ItemStep::Continue => {},
                ItemStep::Finish => {
                    in_item = false;
                },
                ItemStep::Fail => {
                    return true;
                },
            }
        } else {
            match list_read_step(e.kind, e.name.as_str(), item, list) {
                ReadAction::ReadItem => {
                    in_item = nested;
                },
                ReadAction::Finish => {
                    return false;
                },
                ReadAction::Fail => {
                    return true;
                },
                _ => {},
            }
        }
        i = i + 1;
    }
    false
}

/// How an event stands in a document: a start or empty-element tag and an end tag as
/// quick-xml writes them, text as it stands (still escaped); other events as nothing.
pub open spec fn event_text(e: XmlEventView) -> Seq<char> {
    match e.kind {
        XmlEventKind::Start => start_tag_text(e.name, e.attributes, false),
        XmlEventKind::Empty => start_tag_text(e.name, e.attributes, true),
        XmlEventKind::End => end_tag_text(e.name),
        XmlEventKind::Text => e.text,
        _ => Seq::empty(),
    }
}

/// How a run of events stands in a document, one after another.
pub open spec fn events_text(events: Seq<XmlEventView>) -> Seq<char>
    decreases events.len(),
{
    if events.len() == 0 {
        Seq::empty()
    } else {
        events_text(events.drop_last()) + event_text(events.last())
    }
}

/// Whether no text event of a run holds `<`, so that a reader finds in the run's text
/// no tag that is not one of the run's events.
pub open spec fn texts_hold_no_tag(events: Seq<XmlEventView>) -> bool {
    forall|k: int|
        0 <= k < events.len() && (#[trigger] events[k]).kind == XmlEventKind::Text ==> !events[k].text.contains(
            '<',
        )
}

/// The text of two runs of events is the text of the first, then of the second; and
/// neither holds a tag in its text when the two together do not.
pub proof fn lemma_events_text_append(a: Seq<XmlEventView>, b: Seq<XmlEventView>)
    ensures
        events_text(a + b) == events_text(a) + events_text(b),
        texts_hold_no_tag(a) && texts_hold_no_tag(b) ==> texts_hold_no_tag(a + b),
    decreases b.len(),
{
    if b.len() == 0 {
        assert(a + b =~= a);
        assert(events_text(b) == Seq::<char>::empty());
        assert(events_text(a) + events_text(b) =~= events_text(a));
    } else {
        lemma_events_text_append(a, b.drop_last());
        assert((a + b).drop_last() =~= a + b.drop_last());
        assert((a + b).last() == b.last());
        assert(events_text(a + b) =~= events_text(a) + events_text(b));
    }
    if texts_hold_no_tag(a) && texts_hold_no_tag(b) {
        assert forall|k: int|
            0 <= k < (a + b).len() && (#[trigger] (a + b)[k]).kind == XmlEventKind::Text implies !(a
            + b)[k].text.contains('<') by {
            if k < a.len() {
                assert((a + b)[k] == a[k]);
            } else {
                assert((a + b)[k] == b[k - a.len()]);
            }
        }
    }
}

} // verus!
