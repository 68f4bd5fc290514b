//! The shared string table of a workbook (`<sst>`): each distinct cell text is
//! stored once, and cells refer to it by its index.
use vstd::prelude::*;
use std::collections::hash_map::DefaultHasher;
use std::collections::HashMap;
use std::hash::Hasher;
use vstd::std_specs::hash::DefaultHasherAdditionalSpecFns;
use vstd::utf8::encode_utf8;
use crate::decimal::{decimal, format_unsigned, is_digit, lemma_decimal_injective};
use crate::reading::{
    event_text, event_views, events_text, item_read_step, item_step, lemma_events_text_append,
    list_ends_early, list_read_action, list_read_step, texts_hold_no_tag, ItemStep, ListEnd,
    ReadAction, XmlEvent, XmlEventKind, XmlEventView,
};
use crate::text::{lemma_split_at_length, lemma_split_at_separator, text_equals};
use crate::xml::{
    attributes_text, end_tag_text, escape_text, law_escaped_text_reads_back,
    lemma_escape_text_plain, start_tag_text, text_unescaped, unescape_text, write_end_tag,
    write_start_tag, write_text,
};

verus! {

broadcast use vstd::std_specs::hash::group_hash_axioms;

// ---------------------------------------------------------------- RichText

/// Text in runs; this crate keeps the text of each run.
#[derive(Debug)]
pub struct RichText {
    runs: Vec<String>,
}

impl View for RichText {
    type V = Seq<Seq<char>>;

    closed spec fn view(&self) -> Seq<Seq<char>> {
        self.runs.deep_view()
    }
}

impl Clone for RichText {
    fn clone(&self) -> (r: Self)
        ensures
            r@ == self@,
    {
        let mut runs: Vec<String> = Vec::new();
        let mut i: usize = 0;
        while i < self.runs.len()
            invariant
                i <= self.runs@.len(),
                runs.deep_view() =~= self.runs.deep_view().take(i as int),
            decreases self.runs@.len() - i,
        {
            runs.push(String::from_str(self.runs[i].as_str()));
            proof {
                assert(self.runs.deep_view().take(i + 1) =~= self.runs.deep_view().take(i as int).push(
                    self.runs@[i as int]@,
                ));
            }
            i = i + 1;
        }
        assert(self.runs.deep_view().take(i as int) =~= self.runs.deep_view());
        RichText { runs }
    }
}

impl RichText {
    pub fn new() -> (r: Self)
        ensures
            r@ == Seq::<Seq<char>>::empty(),
    {
        RichText { runs: Vec::new() }
    }

    /// Adds a run with the given text at the end.
    pub fn add_run(&mut self, text: &str)
        ensures
            final(self)@ == old(self)@.push(text@),
    {
        self.runs.push(String::from_str(text));
        assert(self.runs.deep_view() =~= old(self).runs.deep_view().push(text@));
    }

    /// The text of the run at `i`.
    pub fn run(&self, i: usize) -> (r: &str)
        requires
            i < self@.len(),
        ensures
            r@ == self@[i as int],
    {
        self.runs[i].as_str()
    }

    pub fn run_count(&self) -> (r: usize)
        ensures
            r == self@.len(),
    {
        self.runs.len()
    }
}

// ---------------------------------------------------------------- CellValue

/// The value of a cell as far as the shared string table reads it: its plain text,
/// its rich text, or neither.
#[derive(Clone, Debug)]
pub struct CellValue {
    text: Option<String>,
    rich_text: Option<RichText>,
}

pub struct CellValueView {
    pub text: Option<Seq<char>>,
    pub rich_text: Option<Seq<Seq<char>>>,
}

impl View for CellValue {
    type V = CellValueView;

    closed spec fn view(&self) -> CellValueView {
        CellValueView {
            text: match self.text {
                Some(t) => Some(t@),
                None => None,
            },
            rich_text: match self.rich_text {
                Some(r) => Some(r@),
                None => None,
            },
        }
    }
}

impl CellValue {
    pub fn empty() -> (r: Self)
        ensures
            r@ == (CellValueView { text: None, rich_text: None }),
    {
        CellValue { text: None, rich_text: None }
    }

    pub fn from_text(text: &str) -> (r: Self)
        ensures
            r@ == (CellValueView { text: Some(text@), rich_text: None }),
    {
        CellValue { text: Some(String::from_str(text)), rich_text: None }
    }

    pub fn from_rich_text(rich_text: RichText) -> (r: Self)
        ensures
            r@ == (CellValueView { text: None, rich_text: Some(rich_text@) }),
    {
        CellValue { text: None, rich_text: Some(rich_text) }
    }

    pub fn text(&self) -> (r: Option<&str>)
        ensures
            match r {
                Some(t) => self@.text == Some(t@),
                None => self@.text is None,
            },
    {
        match &self.text {
            Some(t) => Some(t.as_str()),
            None => None,
        }
    }

    pub fn rich_text(&self) -> (r: Option<&RichText>)
        ensures
            match r {
                Some(t) => self@.rich_text == Some(t@),
                None => self@.rich_text is None,
            },
    {
        match &self.rich_text {
            Some(t) => Some(t),
            None => None,
        }
    }
}

// ---------------------------------------------------------------- SharedStringItem

/// One shared string (`<si>`): plain text, rich text, or (for `<si/>`) neither.
#[derive(Clone, Debug)]
pub struct SharedStringItem {
    text: Option<String>,
    rich_text: Option<RichText>,
}

pub struct SharedStringItemView {
    pub text: Option<Seq<char>>,
    pub rich_text: Option<Seq<Seq<char>>>,
}

impl View for SharedStringItem {
    type V = SharedStringItemView;

    closed spec fn view(&self) -> SharedStringItemView {
        SharedStringItemView {
            text: match self.text {
                Some(t) => Some(t@),
                None => None,
            },
            rich_text: match self.rich_text {
                Some(r) => Some(r@),
                None => None,
            },
        }
    }
}

/// A text with its length in front: the length in decimal, `:`, then the text.
pub open spec fn counted_text(t: Seq<char>) -> Seq<char> {
    decimal(t.len()) + seq![':'] + t
}

/// The runs' texts one after another, each with its length in front.
pub open spec fn runs_key(runs: Seq<Seq<char>>) -> Seq<char>
    decreases runs.len(),
{
    if runs.len() == 0 {
        Seq::empty()
    } else {
        runs_key(runs.drop_last()) + counted_text(runs.last())
    }
}

/// The text an item is hashed by: `t` and its plain text (or `-` for none), then `r`
/// and its runs (or `-` for none), each text with its length in front.
pub open spec fn item_key(v: SharedStringItemView) -> Seq<char> {
    (match v.text {
        Some(t) => seq!['t'] + counted_text(t),
        None => seq!['-'],
    }) + (match v.rich_text {
        Some(r) => seq!['r'] + runs_key(r),
        None => seq!['-'],
    })
}

/// An item's hash: `DefaultHasher` fed the UTF-8 bytes of its key text.
pub open spec fn item_hash(v: SharedStringItemView) -> u64 {
    DefaultHasher::spec_finish(seq![encode_utf8(item_key(v))])
}

/// The runs as written: `<r><t>text</t></r>` each.
pub open spec fn runs_xml(runs: Seq<Seq<char>>) -> Seq<char>
    decreases runs.len(),
{
    if runs.len() == 0 {
        Seq::empty()
    } else {
        runs_xml(runs.drop_last()) + seq!['<', 'r', '>', '<', 't', '>'] + escape_text(runs.last())
            + seq!['<', '/', 't', '>', '<', '/', 'r', '>']
    }
}

/// `<si>`, the text as `<t>text</t>`, the runs, `</si>`.
pub open spec fn item_xml(v: SharedStringItemView) -> Seq<char> {
    seq!['<', 's', 'i', '>'] + (match v.text {
        Some(t) => seq!['<', 't', '>'] + escape_text(t) + seq!['<', '/', 't', '>'],
        None => Seq::empty(),
    }) + (match v.rich_text {
        Some(r) => runs_xml(r),
        None => Seq::empty(),
    }) + seq!['<', '/', 's', 'i', '>']
}

fn append_literal(out: &mut String, lit: &str)
    ensures
        final(out)@ == old(out)@ + lit@,
{
    out.append(lit);
}

/// Appends a text with its length in front.
fn append_counted(out: &mut String, t: &str)
    ensures
        final(out)@ == old(out)@ + counted_text(t@),
{
    proof {
        reveal_strlit(":");
    }
    let n = t.unicode_len();
    let d = format_unsigned(n as u64);
    out.append(d.as_str());
    out.append(":");
    out.append(t);
    assert(out@ =~= old(out)@ + counted_text(t@));
}

fn empty_attributes() -> (r: Vec<(String, String)>)
    ensures
        r.deep_view() == Seq::<(Seq<char>, Seq<char>)>::empty(),
{
    let r: Vec<(String, String)> = Vec::new();
    assert(r.deep_view() =~= Seq::<(Seq<char>, Seq<char>)>::empty());
    r
}

impl SharedStringItem {
    pub fn new() -> (r: Self)
        ensures
            r@ == (SharedStringItemView { text: None, rich_text: None }),
    {
        SharedStringItem { text: None, rich_text: None }
    }

    pub fn text(&self) -> (r: Option<&str>)
        ensures
            match r {
                Some(t) => self@.text == Some(t@),
                None => self@.text is None,
            },
    {
        match &self.text {
            Some(t) => Some(t.as_str()),
            None => None,
        }
    }

    pub fn set_text(&mut self, value: &str) -> (r: &mut Self)
        ensures
            r@ == (SharedStringItemView { text: Some(value@), ..old(self)@ }),
            *final(self) == *final(r),
    {
        self.text = Some(String::from_str(value));
        self
    }

    pub fn rich_text(&self) -> (r: Option<&RichText>)
        ensures
            match r {
                Some(t) => self@.rich_text == Some(t@),
                None => self@.rich_text is None,
            },
    {
        match &self.rich_text {
            Some(t) => Some(t),
            None => None,
        }
    }

    pub fn set_rich_text(&mut self, value: &RichText) -> (r: &mut Self)
        ensures
            r@ == (SharedStringItemView { rich_text: Some(value@), ..old(self)@ }),
            *final(self) == *final(r),
    {
        self.rich_text = Some(value.clone());
        self
    }

    fn key_text(&self) -> (r: String)
        ensures
            r@ == item_key(self@),
    {
        proof {
            reveal_strlit("t");
            reveal_strlit("-");
            reveal_strlit(":");
            reveal_strlit("r");
        }
        let mut s = match &self.text {
            Some(t) => {
                let mut s = String::from_str("t");
                append_counted(&mut s, t.as_str());
                s
            },
            None => String::from_str("-"),
        };
        match &self.rich_text {
            Some(r) => {
                let ghost runs = r@;
                s.append("r");
                let ghost base = s@;
                let mut i: usize = 0;
                while i < r.run_count()
                    invariant
                        runs == r@,
                        i <= runs.len(),
                        s@ == base + runs_key(runs.take(i as int)),
                    decreases runs.len() - i,
                {
                    append_counted(&mut s, r.run(i));
                    proof {
                        assert(runs.take(i + 1).drop_last() =~= runs.take(i as int));
                        assert(runs.take(i + 1).last() == runs[i as int]);
                        assert(s@ =~= base + runs_key(runs.take(i + 1)));
                    }
                    i = i + 1;
                }
                assert(runs.take(i as int) =~= runs);
            },
            None => {
                s.append("-");
            },
        }
        s
    }

    /// The item's hash, from `DefaultHasher` over its key text.
    pub fn hash_u64(&self) -> (r: u64)
        ensures
            r == item_hash(self@),
    {
        let key = self.key_text();
        let mut hasher = DefaultHasher::new();
        hasher.write(key.as_str().as_bytes());
        hasher.finish()
    }

    /// Appends the `<si>` element.
    pub fn write_to(&self, out: &mut String)
        ensures
            final(out)@ == old(out)@ + item_xml(self@),
    {
        proof {
            reveal_strlit("<si>");
            reveal_strlit("</si>");
            reveal_strlit("<t>");
            reveal_strlit("</t>");
            reveal_strlit("<r><t>");
            reveal_strlit("</t></r>");
        }
        let ghost start = out@;
        append_literal(out, "<si>");
        if let Some(t) = &self.text {
            append_literal(out, "<t>");
            write_text(out, t.as_str());
            append_literal(out, "</t>");
        }
        let ghost mid = out@;
        if let Some(r) = &self.rich_text {
            let ghost runs = r@;
            let mut i: usize = 0;
            while i < r.run_count()
                invariant
                    runs == r@,
                    i <= runs.len(),
                    out@ == mid + runs_xml(runs.take(i as int)),
                decreases runs.len() - i,
            {
                append_literal(out, "<r><t>");
                write_text(out, r.run(i));
                append_literal(out, "</t></r>");
                proof {
                    reveal_strlit("<r><t>");
                    reveal_strlit("</t></r>");
                    assert("<r><t>"@ =~= seq!['<', 'r', '>', '<', 't', '>']);
                    assert("</t></r>"@ =~= seq!['<', '/', 't', '>', '<', '/', 'r', '>']);
                    assert(runs.take(i + 1).drop_last() =~= runs.take(i as int));
                    assert(runs.take(i + 1).last() == runs[i as int]);
                    assert(out@ =~= mid + runs_xml(runs.take(i + 1)));
                }
                i = i + 1;
            }
            assert(runs.take(i as int) =~= runs);
        }
        append_literal(out, "</si>");
        proof {
            let a: Seq<char> = match self@.text {
                Some(t) => seq!['<', 't', '>'] + escape_text(t) + seq!['<', '/', 't', '>'],
                None => Seq::empty(),
            };
            let b: Seq<char> = match self@.rich_text {
                Some(r) => runs_xml(r),
                None => Seq::empty(),
            };
            assert(mid =~= start + seq!['<', 's', 'i', '>'] + a);
            assert(out@ =~= start + (seq!['<', 's', 'i', '>'] + a + b + seq!['<', '/', 's', 'i', '>']));
        }
    }
}

// ---------------------------------------------------------------- reading an item

/// Where reading a `<si>` element stands: inside a `<t>` or not, inside a run
/// (`<r>`) or not, and the text gathered in the current `<t>`.
pub struct SharedStringItemReader {
    in_text: bool,
    in_run: bool,
    buffer: String,
}

pub struct SharedStringItemReaderView {
    pub in_text: bool,
    pub in_run: bool,
    pub buffer: Seq<char>,
}

impl View for SharedStringItemReader {
    type V = SharedStringItemReaderView;

    closed spec fn view(&self) -> SharedStringItemReaderView {
        SharedStringItemReaderView { in_text: self.in_text, in_run: self.in_run, buffer: self.buffer@ }
    }
}

/// The item with a finished `<t>` text: a new run inside a run, the plain text
/// otherwise.
pub open spec fn item_with_text(item: SharedStringItemView, in_run: bool, t: Seq<char>) -> SharedStringItemView {
    if in_run {
        SharedStringItemView {
            rich_text: Some(
                match item.rich_text {
                    Some(r) => r,
                    None => Seq::empty(),
                }.push(t),
            ),
            ..item
        }
    } else {
        SharedStringItemView { text: Some(t), ..item }
    }
}

/// An item and its reader after one event of the item's content; `raw` is the raw
/// text of a text event.
pub open spec fn si_after_event(
    item: SharedStringItemView,
    st: SharedStringItemReaderView,
    kind: XmlEventKind,
    name: Seq<char>,
    raw: Seq<char>,
) -> (SharedStringItemView, SharedStringItemReaderView) {
    if kind == XmlEventKind::Start && name == "t"@ {
        (item, SharedStringItemReaderView { in_text: true, buffer: Seq::empty(), ..st })
    } else if kind == XmlEventKind::Empty && name == "t"@ {
        (item_with_text(item, st.in_run, Seq::empty()), SharedStringItemReaderView { in_text: false, buffer: Seq::empty(), ..st })
    } else if kind == XmlEventKind::Text && st.in_text && text_unescaped(raw) is Some {
        (item, SharedStringItemReaderView { buffer: st.buffer + text_unescaped(raw).unwrap(), ..st })
    } else if kind == XmlEventKind::End && name == "t"@ {
        (item_with_text(item, st.in_run, st.buffer), SharedStringItemReaderView { in_text: false, buffer: Seq::empty(), ..st })
    } else if kind == XmlEventKind::Start && name == "r"@ {
        (
            SharedStringItemView {
                rich_text: Some(
                    match item.rich_text {
                        Some(r) => r,
                        None => Seq::empty(),
                    },
                ),
                ..item
            },
            SharedStringItemReaderView { in_run: true, ..st },
        )
    } else if kind == XmlEventKind::End && name == "r"@ {
        (item, SharedStringItemReaderView { in_run: false, ..st })
    } else {
        (item, st)
    }
}

/// The step of reading a `<si>` element: `</si>` finishes it; the end of the document,
/// or text inside `<t>` with a malformed reference, fails it.
pub open spec fn si_step(st: SharedStringItemReaderView, kind: XmlEventKind, name: Seq<char>, raw: Seq<char>) -> ItemStep {
    if kind == XmlEventKind::Text && st.in_text && text_unescaped(raw) is None {
        ItemStep::Fail
    } else {
        item_step(kind, name, "si"@)
    }
}

impl SharedStringItemReader {
    pub fn new() -> (r: Self)
        ensures
            r@ == (SharedStringItemReaderView { in_text: false, in_run: false, buffer: Seq::empty() }),
    {
        SharedStringItemReader { in_text: false, in_run: false, buffer: String::new() }
    }
}

impl SharedStringItem {
    fn add_text(&mut self, in_run: bool, t: String)
        ensures
            final(self)@ == item_with_text(old(self)@, in_run, t@),
    {
        if in_run {
            let mut r = match self.rich_text.take() {
                Some(r) => r,
                None => RichText::new(),
            };
            r.add_run(t.as_str());
            self.rich_text = Some(r);
        } else {
            self.text = Some(t);
        }
    }

    /// Reads one event inside a `<si>` element: `<t>...</t>` gives the text (or, inside
    /// `<r>...</r>`, a run); `raw` is the raw text of a text event.
    pub fn read_event(
        &mut self,
        reader: &mut SharedStringItemReader,
        kind: XmlEventKind,
        name: &str,
        raw: &str,
    ) -> (r: ItemStep)
        ensures
            (final(self)@, final(reader)@) == si_after_event(old(self)@, old(reader)@, kind, name@, raw@),
            r == si_step(old(reader)@, kind, name@, raw@),
    {
        proof {
            reveal_strlit("t");
            reveal_strlit("r");
        }
        let is_t = text_equals(name, "t");
        let is_r = text_equals(name, "r");
        if kind == XmlEventKind::Start && is_t {
            reader.in_text = true;
            reader.buffer = String::new();
        } else if kind == XmlEventKind::Empty && is_t {
            self.add_text(reader.in_run, String::new());
            reader.in_text = false;
            reader.buffer = String::new();
        } else if kind == XmlEventKind::Text && reader.in_text {
            match unescape_text(raw) {
                Some(t) => {
                    reader.buffer.append(t.as_str());
                },
                None => {
                    return ItemStep::Fail;
                },
            }
        } else if kind == XmlEventKind::End && is_t {
            let mut t = String::new();
            core::mem::swap(&mut t, &mut reader.buffer);
            self.add_text(reader.in_run, t);
            reader.in_text = false;
        } else if kind == XmlEventKind::Start && is_r {
            if self.rich_text.is_none() {
                self.rich_text = Some(RichText::new());
            }
            reader.in_run = true;
        } else if kind == XmlEventKind::End && is_r {
            reader.in_run = false;
        }
        item_read_step(kind, name, "si")
    }
}

// ---------------------------------------------------------------- SharedStringTable

/// The namespace of the spreadsheet main part.
pub open spec fn sheet_main_ns() -> Seq<char> {
    "http://schemas.openxmlformats.org/spreadsheetml/2006/main"@
}

#[derive(Clone, Debug, Default)]
pub struct SharedStringTable {
    shared_string_item: Vec<SharedStringItem>,
    map: HashMap<u64, usize>,
    regist_count: usize,
}

/// What a shared string table holds: its items, the index of the item with each
/// hash, and how many cells have been registered.
pub struct SharedStringTableView {
    pub items: Seq<SharedStringItemView>,
    pub map: Map<u64, usize>,
    pub regist_count: nat,
}

impl View for SharedStringTable {
    type V = SharedStringTableView;

    closed spec fn view(&self) -> SharedStringTableView {
        SharedStringTableView {
            items: self.shared_string_item@.map_values(|i: SharedStringItem| i@),
            map: self.map@,
            regist_count: self.regist_count as nat,
        }
    }
}

/// Every hash in the index leads to an item with that hash.
pub open spec fn sst_index_valid(t: SharedStringTableView) -> bool {
    forall|h: u64| #[trigger]
        t.map.contains_key(h) ==> t.map[h] < t.items.len() && item_hash(t.items[t.map[h] as int]) == h
}

/// The item a cell's value is stored as.
pub open spec fn item_of_cell(v: CellValueView) -> SharedStringItemView {
    SharedStringItemView { text: v.text, rich_text: v.rich_text }
}

/// The table after registering a cell whose item is `item`, and the item's index:
/// an item with the same hash is reused, otherwise the item is added at the end.
pub open spec fn sst_register(t: SharedStringTableView, item: SharedStringItemView) -> (SharedStringTableView, nat) {
    let h = item_hash(item);
    if t.map.contains_key(h) {
        (SharedStringTableView { regist_count: t.regist_count + 1, ..t }, t.map[h] as nat)
    } else {
        (
            SharedStringTableView {
                items: t.items.push(item),
                map: t.map.insert(h, t.items.len() as usize),
                regist_count: t.regist_count + 1,
            },
            t.items.len(),
        )
    }
}

/// The items one after another.
pub open spec fn sst_items_xml(items: Seq<SharedStringItemView>) -> Seq<char>
    decreases items.len(),
{
    if items.len() == 0 {
        Seq::empty()
    } else {
        sst_items_xml(items.drop_last()) + item_xml(items.last())
    }
}

/// `<sst xmlns=... count="registered" uniqueCount="items">`, the items, `</sst>`.
pub open spec fn sst_xml(t: SharedStringTableView) -> Seq<char> {
    start_tag_text(
        "sst"@,
        seq![
            ("xmlns"@, sheet_main_ns()),
            ("count"@, decimal(t.regist_count)),
            ("uniqueCount"@, decimal(t.items.len())),
        ],
        false,
    ) + sst_items_xml(t.items) + end_tag_text("sst"@)
}

pub open spec fn empty_item() -> SharedStringItemView {
    SharedStringItemView { text: None, rich_text: None }
}

pub open spec fn fresh_reader() -> SharedStringItemReaderView {
    SharedStringItemReaderView { in_text: false, in_run: false, buffer: Seq::empty() }
}

/// The table after adding an item read from the document as the `n`-th of the list.
pub open spec fn sst_add_read(t: SharedStringTableView, item: SharedStringItemView, n: nat) -> SharedStringTableView {
    SharedStringTableView {
        items: t.items.push(item),
        map: t.map.insert(item_hash(item), n as usize),
        ..t
    }
}

/// One event of reading an `<sst>` list: the table, the item being read with its
/// reader (when inside an `<si>`), and the number of items read so far become the
/// next ones; the fourth part says how the list ended, if it did.
pub open spec fn sst_step(
    t: SharedStringTableView,
    cur: Option<(SharedStringItemView, SharedStringItemReaderView)>,
    n: nat,
    e: XmlEventView,
) -> (SharedStringTableView, Option<(SharedStringItemView, SharedStringItemReaderView)>, nat, Option<ListEnd>) {
    match cur {
        None => match list_read_action(e.kind, e.name, "si"@, "sst"@) {
            ReadAction::ReadItem => (t, Some((empty_item(), fresh_reader())), n, None),
            ReadAction::ReadEmptyItem => (sst_add_read(t, empty_item(), n), None, n + 1, None),
            ReadAction::Finish => (t, None, n, Some(ListEnd::Finished)),
            ReadAction::Fail => (t, None, n, Some(ListEnd::Failed)),
            ReadAction::Skip => (t, None, n, None),
        },
        Some((it, st)) => {
            let (it2, st2) = si_after_event(it, st, e.kind, e.name, e.text);
            match si_step(st, e.kind, e.name, e.text) {
                ItemStep::Continue => (t, Some((it2, st2)), n, None),
                ItemStep::Finish => (sst_add_read(t, it2, n), None, n + 1, None),
                ItemStep::Fail => (t, None, n, Some(ListEnd::Failed)),
            }
        },
    }
}

/// Reading an `<sst>` list from event `i` on: the table at the end, how the list ended,
/// and how many events were taken.
pub open spec fn sst_run(
    t: SharedStringTableView,
    cur: Option<(SharedStringItemView, SharedStringItemReaderView)>,
    n: nat,
    events: Seq<XmlEventView>,
    i: int,
) -> (SharedStringTableView, ListEnd, int)
    decreases events.len() - i,
{
    if i < 0 || i >= events.len() {
        (t, ListEnd::Exhausted, i)
    } else {
        let (t2, c2, n2, end) = sst_step(t, cur, n, events[i]);
        match end {
            Some(x) => (t2, x, i + 1),
            None => sst_run(t2, c2, n2, events, i + 1),
        }
    }
}

impl SharedStringTable {
    pub fn new() -> (r: Self)
        ensures
            r@.items == Seq::<SharedStringItemView>::empty(),
            r@.map == Map::<u64, usize>::empty(),
            r@.regist_count == 0,
    {
        SharedStringTable { shared_string_item: Vec::new(), map: HashMap::new(), regist_count: 0 }
    }

    pub fn shared_string_item(&self) -> (r: &[SharedStringItem])
        ensures
            r@.map_values(|i: SharedStringItem| i@) == self@.items,
    {
        self.shared_string_item.as_slice()
    }

    pub fn get_shared_string_item(&self) -> (r: &[SharedStringItem])
        ensures
            r@.map_values(|i: SharedStringItem| i@) == self@.items,
    {
        self.shared_string_item()
    }

    /// The items, to change at will; the index is left as it is.
    pub fn shared_string_item_mut(&mut self) -> (r: &mut Vec<SharedStringItem>)
        ensures
            r@.map_values(|i: SharedStringItem| i@) == old(self)@.items,
            final(self)@ == (SharedStringTableView {
                items: final(r)@.map_values(|i: SharedStringItem| i@),
                ..old(self)@
            }),
    {
        &mut self.shared_string_item
    }

    pub fn get_shared_string_item_mut(&mut self) -> (r: &mut Vec<SharedStringItem>)
        ensures
            r@.map_values(|i: SharedStringItem| i@) == old(self)@.items,
            final(self)@ == (SharedStringTableView {
                items: final(r)@.map_values(|i: SharedStringItem| i@),
                ..old(self)@
            }),
    {
        self.shared_string_item_mut()
    }

    /// Adds an item at the end, leaving the index as it is.
    pub fn set_shared_string_item(&mut self, value: SharedStringItem) -> (r: &mut Self)
        ensures
            r@ == (SharedStringTableView { items: old(self)@.items.push(value@), ..old(self)@ }),
            *final(self) == *final(r),
            sst_index_valid(old(self)@) ==> sst_index_valid(r@),
    {
        self.shared_string_item.push(value);
        assert(self.shared_string_item@.map_values(|i: SharedStringItem| i@) =~= old(
            self,
        ).shared_string_item@.map_values(|i: SharedStringItem| i@).push(value@));
        proof {
            let t0 = old(self)@;
            let t1 = self@;
            if sst_index_valid(t0) {
                assert forall|h: u64| #[trigger] t1.map.contains_key(h) implies t1.map[h] < t1.items.len()
                    && item_hash(t1.items[t1.map[h] as int]) == h by {
                    assert(t1.items[t1.map[h] as int] == t0.items[t0.map[h] as int]);
                }
            }
        }
        self
    }

    /// Whether there is any item.
    pub fn has_value(&self) -> (r: bool)
        ensures
            r == (self@.items.len() > 0),
    {
        self.shared_string_item.len() > 0
    }

    /// Registers a cell's text and gives the index of its shared string: the item
    /// with the same hash when there is one, a new item at the end otherwise. When the
    /// index was valid it stays valid, and the item at the returned index has the
    /// cell's hash.
    pub fn set_cell(&mut self, value: &CellValue) -> (r: usize)
        requires
            old(self)@.regist_count < usize::MAX,
        ensures
            final(self)@ == sst_register(old(self)@, item_of_cell(value@)).0,
            r == sst_register(old(self)@, item_of_cell(value@)).1,
            sst_index_valid(old(self)@) ==> ({
                &&& sst_index_valid(final(self)@)
                &&& r < final(self)@.items.len()
                &&& item_hash(final(self)@.items[r as int]) == item_hash(item_of_cell(value@))
            }),
    {
        self.regist_count = self.regist_count + 1;
        let mut shared_string_item = SharedStringItem::new();
        if let Some(v) = value.text() {
            shared_string_item.set_text(v);
        }
        if let Some(v) = value.rich_text() {
            shared_string_item.set_rich_text(v);
        }
        assert(shared_string_item@ == item_of_cell(value@));
        let hash_code = shared_string_item.hash_u64();
        let found = match self.map.get(&hash_code) {
            Some(v) => Some(*v),
            None => None,
        };
        match found {
            Some(n) => n,
            None => {
                let n = self.shared_string_item.len();
                self.map.insert(hash_code, n);
                self.shared_string_item.push(shared_string_item);
                proof {
                    let items = self.shared_string_item@.map_values(|i: SharedStringItem| i@);
                    assert(items =~= old(self)@.items.push(item_of_cell(value@)));
                }
                n
            },
        }
    }

    /// Decides what to do with an event while reading the `<sst>` list: `<si>`
    /// starts a string to read, `<si/>` is an empty string that still takes its
    /// index, `</sst>` ends the list.
    pub fn read_step(kind: XmlEventKind, name: &str) -> (r: ReadAction)
        ensures
            r == list_read_action(kind, name@, "si"@, "sst"@),
    {
        list_read_step(kind, name, "si", "sst")
    }

    /// Adds an item read from the document as the `n`-th of the list, indexing it by
    /// its hash. When `n` is the item's position (the table was empty when reading
    /// began), the index stays valid.
    pub fn read_item(&mut self, item: SharedStringItem, n: usize)
        ensures
            final(self)@ == (SharedStringTableView {
                items: old(self)@.items.push(item@),
                map: old(self)@.map.insert(item_hash(item@), n),
                ..old(self)@
            }),
            sst_index_valid(old(self)@) && n == old(self)@.items.len() ==> sst_index_valid(
                final(self)@,
            ),
    {
        let hash_code = item.hash_u64();
        self.map.insert(hash_code, n);
        self.set_shared_string_item(item);
    }

    /// Adds the item for a self-closing `<si/>`: an empty one.
    pub fn read_empty_item(&mut self, n: usize)
        ensures
            final(self)@ == (SharedStringTableView {
                items: old(self)@.items.push(SharedStringItemView { text: None, rich_text: None }),
                map: old(self)@.map.insert(
                    item_hash(SharedStringItemView { text: None, rich_text: None }),
                    n,
                ),
                ..old(self)@
            }),
            sst_index_valid(old(self)@) && n == old(self)@.items.len() ==> sst_index_valid(
                final(self)@,
            ),
    {
        self.read_item(SharedStringItem::new(), n);
    }

    /// Reads the content of an `<sst>` element (the events after its start tag): each
    /// `<si>...</si>` is read into an item, each `<si/>` adds an empty one, and `</sst>`
    /// ends the list; the `n`-th item read is indexed by its hash as `n`. Gives how the
    /// list ended and how many events were taken. Reading into an empty table with a
    /// valid index leaves the index valid.
    /// The document must not end before the list's end tag: reading such a document
    /// is abandoned before this is called.
    pub fn set_attributes(&mut self, events: &Vec<XmlEvent>) -> (r: (ListEnd, usize))
        requires
            !list_ends_early(event_views(events@), "si"@, "sst"@, true, false, 0),
        ensures
            ({
                let (t, end, n) = sst_run(old(self)@, None, 0, event_views(events@), 0);
                final(self)@ == t && r.0 == end && r.1 == n
            }),
            old(self)@.items.len() == 0 && sst_index_valid(old(self)@) ==> sst_index_valid(final(self)@),
    {
        let ghost ev = event_views(events@);
        let ghost target = sst_run(old(self)@, None, 0, ev, 0);
        let ghost start_len = old(self)@.items.len();
        let ghost start_valid = sst_index_valid(old(self)@);
        let n = events.len();
        let mut in_item = false;
        let mut item = SharedStringItem::new();
        let mut reader = SharedStringItemReader::new();
        let mut count: usize = 0;
        let mut end: Option<ListEnd> = None;
        let mut i: usize = 0;
        while end.is_none() && i < n
            invariant
                n == events@.len(),
                ev == event_views(events@),
                i <= n,
                count <= i,
                self@.items.len() == start_len + count,
                start_len == 0 && start_valid ==> sst_index_valid(self@),
                end is None ==> sst_run(
                    self@,
                    if in_item {
                        Some((item@, reader@))
                    } else {
                        None
                    },
                    count as nat,
                    ev,
                    i as int,
                ) == target,
                end matches Some(x) ==> target == (self@, x, i as int),
            decreases n - i,
        {
            let e = &events[i];
            assert(ev[i as int] == e@);
            if !in_item {
                match Self::read_step(e.kind, e.name.as_str()) {
                    ReadAction::ReadItem => {
                        in_item = true;
                        item = SharedStringItem::new();
                        reader = SharedStringItemReader::new();
                    },
                    ReadAction::ReadEmptyItem => {
                        self.read_empty_item(count);
                        count = count + 1;
                    },
                    ReadAction::Finish => {
                        end = Some(ListEnd::Finished);
                    },
                    ReadAction::Fail => {
                        end = Some(ListEnd::Failed);
                    },
                    ReadAction::Skip => {},
                }
            } else {
                match item.read_event(&mut reader, e.kind, e.name.as_str(), e.text.as_str()) {
                    ItemStep::Continue => {},
                    ItemStep::Finish => {
                        let mut done = SharedStringItem::new();
                        core::mem::swap(&mut done, &mut item);
                        self.read_item(done, count);
                        count = count + 1;
                        in_item = false;
                    },
                    ItemStep::Fail => {
                        end = Some(ListEnd::Failed);
                    },
                }
            }
            i = i + 1;
        }
        match end {
            Some(x) => (x, i),
            None => (ListEnd::Exhausted, i),
        }
    }

    /// Appends the `<sst>` element.
    pub fn write_to(&self, out: &mut String)
        ensures
            final(out)@ == old(out)@ + sst_xml(self@),
    {
        proof {
            reveal_strlit("http://schemas.openxmlformats.org/spreadsheetml/2006/main");
        }
        let mut attrs: Vec<(String, String)> = Vec::new();
        attrs.push(
            (
                String::from_str("xmlns"),
                String::from_str("http://schemas.openxmlformats.org/spreadsheetml/2006/main"),
            ),
        );
        attrs.push((String::from_str("count"), format_unsigned(self.regist_count as u64)));
        attrs.push(
            (String::from_str("uniqueCount"), format_unsigned(self.shared_string_item.len() as u64)),
        );
        assert(attrs.deep_view() =~= seq![
            ("xmlns"@, sheet_main_ns()),
            ("count"@, decimal(self@.regist_count)),
            ("uniqueCount"@, decimal(self@.items.len())),
        ]);
        write_start_tag(out, "sst", &attrs, false);
        let ghost head = out@;
        let ghost items = self@.items;
        let n = self.shared_string_item.len();
        let mut i: usize = 0;
        while i < n
            invariant
                n == items.len(),
                items == self@.items,
                i <= n,
                out@ == head + sst_items_xml(items.take(i as int)),
            decreases n - i,
        {
            self.shared_string_item[i].write_to(out);
            proof {
                assert(items.take(i + 1).drop_last() =~= items.take(i as int));
                assert(items.take(i + 1).last() == items[i as int]);
            }
            i = i + 1;
        }
        write_end_tag(out, "sst");
        assert(items.take(n as int) =~= items);
    }
}

/// Registering the same cell text twice gives the same index, and the second time
/// neither adds an item nor changes the index: each distinct text is stored once.
pub proof fn law_register_twice_reuses_the_item(t: SharedStringTableView, item: SharedStringItemView)
    requires
        t.items.len() <= usize::MAX,
    ensures
        ({
            let (t1, i1) = sst_register(t, item);
            let (t2, i2) = sst_register(t1, item);
            &&& i2 == i1
            &&& t2.items == t1.items
            &&& t2.map == t1.map
            &&& t2.regist_count == t1.regist_count + 1
        }),
{
}

/// Reading is the same from any point of a longer run of events, with the count of
/// events taken shifted by what comes before.
proof fn lemma_sst_run_shift(
    t: SharedStringTableView,
    cur: Option<(SharedStringItemView, SharedStringItemReaderView)>,
    n: nat,
    pre: Seq<XmlEventView>,
    rest: Seq<XmlEventView>,
    k: int,
)
    requires
        0 <= k,
    ensures
        ({
            let (t1, e1, n1) = sst_run(t, cur, n, pre + rest, pre.len() + k);
            let (t2, e2, n2) = sst_run(t, cur, n, rest, k);
            t1 == t2 && e1 == e2 && n1 == n2 + pre.len()
        }),
    decreases rest.len() - k,
{
    let all = pre + rest;
    if k < rest.len() {
        assert(all[pre.len() + k] == rest[k]);
        let (t2, c2, m2, end) = sst_step(t, cur, n, rest[k]);
        if end is None {
            lemma_sst_run_shift(t2, c2, m2, pre, rest, k + 1);
        }
    }
}

/// An empty shared string written `<si/>` reads exactly as one written `<si></si>`: it
/// takes the same index, so the strings after it keep theirs.
pub proof fn law_self_closing_si_reads_as_empty_element(t: SharedStringTableView, after: Seq<XmlEventView>)
    ensures
        ({
            let empty_tag = XmlEventView {
                kind: XmlEventKind::Empty,
                name: "si"@,
                attributes: Seq::empty(),
                text: Seq::empty(),
            };
            let start_tag = XmlEventView { kind: XmlEventKind::Start, ..empty_tag };
            let end_tag = XmlEventView { kind: XmlEventKind::End, ..empty_tag };
            let (t1, e1, _) = sst_run(t, None, 0, seq![empty_tag] + after, 0);
            let (t2, e2, _) = sst_run(t, None, 0, seq![start_tag, end_tag] + after, 0);
            t1 == t2 && e1 == e2
        }),
{
    reveal_strlit("si");
    reveal_strlit("sst");
    reveal_strlit("t");
    reveal_strlit("r");
    let empty_tag = XmlEventView {
        kind: XmlEventKind::Empty,
        name: "si"@,
        attributes: Seq::empty(),
        text: Seq::empty(),
    };
    let start_tag = XmlEventView { kind: XmlEventKind::Start, ..empty_tag };
    let end_tag = XmlEventView { kind: XmlEventKind::End, ..empty_tag };
    let a = seq![empty_tag] + after;
    let b = seq![start_tag, end_tag] + after;
    assert("si"@ != "sst"@) by {
        assert("si"@.len() != "sst"@.len());
    }
    assert("si"@ != "t"@) by {
        assert("si"@.len() != "t"@.len());
    }
    assert("si"@ != "r"@) by {
        assert("si"@.len() != "r"@.len());
    }
    assert(a[0] == empty_tag);
    assert(b[0] == start_tag);
    assert(b[1] == end_tag);
    let t1 = sst_add_read(t, empty_item(), 0);
    assert(list_read_action(XmlEventKind::Empty, "si"@, "si"@, "sst"@) == ReadAction::ReadEmptyItem);
    assert(sst_step(t, None, 0, a[0]) == (
        t1,
        None::<(SharedStringItemView, SharedStringItemReaderView)>,
        1nat,
        None::<ListEnd>,
    ));
    assert(sst_run(t, None, 0, a, 0) == sst_run(t1, None, 1, a, 1));
    assert(list_read_action(XmlEventKind::Start, "si"@, "si"@, "sst"@) == ReadAction::ReadItem);
    assert(sst_step(t, None, 0, b[0]) == (t, Some((empty_item(), fresh_reader())), 0nat, None::<ListEnd>));
    assert(sst_run(t, None, 0, b, 0) == sst_run(t, Some((empty_item(), fresh_reader())), 0, b, 1));
    assert(si_after_event(empty_item(), fresh_reader(), XmlEventKind::End, "si"@, Seq::empty()) == (
        empty_item(),
        fresh_reader(),
    ));
    assert(si_step(fresh_reader(), XmlEventKind::End, "si"@, Seq::empty()) == ItemStep::Finish);
    assert(sst_step(t, Some((empty_item(), fresh_reader())), 0, b[1]) == (
        t1,
        None::<(SharedStringItemView, SharedStringItemReaderView)>,
        1nat,
        None::<ListEnd>,
    ));
    assert(sst_run(t, Some((empty_item(), fresh_reader())), 0, b, 1) == sst_run(t1, None, 1, b, 2));
    lemma_sst_run_shift(t1, None, 1, seq![empty_tag], after, 0);
    lemma_sst_run_shift(t1, None, 1, seq![start_tag, end_tag], after, 0);
}

/// The index points each hash held by an item at the last item with that hash.
pub open spec fn sst_index_is_last(t: SharedStringTableView) -> bool {
    &&& forall|h: u64| #[trigger]
        t.map.contains_key(h) ==> {
            &&& t.map[h] < t.items.len()
            &&& item_hash(t.items[t.map[h] as int]) == h
            &&& forall|j: int| t.map[h] < j < t.items.len() ==> item_hash(#[trigger] t.items[j]) != h
        }
    &&& forall|i: int| 0 <= i < t.items.len() ==> t.map.contains_key(item_hash(#[trigger] t.items[i]))
}

proof fn lemma_add_read_keeps_last(t: SharedStringTableView, item: SharedStringItemView)
    requires
        sst_index_is_last(t),
        t.items.len() < usize::MAX,
    ensures
        sst_index_is_last(sst_add_read(t, item, t.items.len())),
{
    let t2 = sst_add_read(t, item, t.items.len());
    let h = item_hash(item);
    assert forall|g: u64| #[trigger] t2.map.contains_key(g) implies {
        &&& t2.map[g] < t2.items.len()
        &&& item_hash(t2.items[t2.map[g] as int]) == g
        &&& forall|j: int| t2.map[g] < j < t2.items.len() ==> item_hash(#[trigger] t2.items[j]) != g
    } by {
        if g != h {
            assert(t.map.contains_key(g));
            assert(t2.items[t2.map[g] as int] == t.items[t.map[g] as int]);
            assert forall|j: int| t2.map[g] < j < t2.items.len() implies item_hash(#[trigger] t2.items[j]) != g by {
                if j < t.items.len() {
                    assert(t2.items[j] == t.items[j]);
                }
            }
        }
    }
    assert forall|i: int| 0 <= i < t2.items.len() implies t2.map.contains_key(item_hash(#[trigger] t2.items[i])) by {
        if i < t.items.len() {
            assert(t2.items[i] == t.items[i]);
        }
    }
}

proof fn lemma_sst_run_keeps_last(
    t: SharedStringTableView,
    cur: Option<(SharedStringItemView, SharedStringItemReaderView)>,
    n: nat,
    events: Seq<XmlEventView>,
    i: int,
)
    requires
        sst_index_is_last(t),
        n == t.items.len(),
        0 <= i,
        t.items.len() + events.len() - i <= usize::MAX,
    ensures
        sst_index_is_last(sst_run(t, cur, n, events, i).0),
    decreases events.len() - i,
{
    if i < events.len() {
        let (t2, c2, n2, end) = sst_step(t, cur, n, events[i]);
        if t2 != t {
            lemma_add_read_keeps_last(t, match cur {
                None => empty_item(),
                Some((it, st)) => si_after_event(it, st, events[i].kind, events[i].name, events[i].text).0,
            });
        }
        if end is None {
            lemma_sst_run_keeps_last(t2, c2, n2, events, i + 1);
        }
    }
}

/// After reading a list into an empty table, the index points each hash at the last
/// item read with that hash, and every item's hash is in the index; so registering a
/// cell whose item has the hash of item `i`, where no later item has that hash, gives
/// `i` and adds no item.
pub proof fn law_read_then_register_gives_last_match(
    regist_count: nat,
    events: Seq<XmlEventView>,
    item: SharedStringItemView,
    i: int,
)
    requires
        events.len() <= usize::MAX,
        ({
            let t = sst_run(
                SharedStringTableView { items: Seq::empty(), map: Map::empty(), regist_count },
                None,
                0,
                events,
                0,
            ).0;
            &&& 0 <= i < t.items.len()
            &&& item_hash(t.items[i]) == item_hash(item)
            &&& forall|j: int| i < j < t.items.len() ==> item_hash(#[trigger] t.items[j]) != item_hash(item)
        }),
    ensures
        ({
            let t = sst_run(
                SharedStringTableView { items: Seq::empty(), map: Map::empty(), regist_count },
                None,
                0,
                events,
                0,
            ).0;
            &&& sst_index_is_last(t)
            &&& sst_register(t, item).1 == i
            &&& sst_register(t, item).0.items == t.items
        }),
{
    let t0 = SharedStringTableView { items: Seq::empty(), map: Map::empty(), regist_count };
    lemma_sst_run_keeps_last(t0, None, 0, events, 0);
    let t = sst_run(t0, None, 0, events, 0).0;
    let h = item_hash(item);
    assert(t.map.contains_key(item_hash(t.items[i])));
    if t.map[h] < i {
        assert(item_hash(t.items[i]) != h);
    }
    if t.map[h] > i {
        assert(item_hash(t.items[t.map[h] as int]) != h);
    }
}

/// The table after registering cells whose items are `items`, one after another.
pub open spec fn sst_register_all(t: SharedStringTableView, items: Seq<SharedStringItemView>) -> SharedStringTableView
    decreases items.len(),
{
    if items.len() == 0 {
        t
    } else {
        sst_register(sst_register_all(t, items.drop_last()), items.last()).0
    }
}

/// The hashes of some items.
pub open spec fn item_hashes(items: Seq<SharedStringItemView>) -> Seq<u64> {
    items.map_values(|i: SharedStringItemView| item_hash(i))
}

/// A table whose index holds exactly its items' hashes, each at its item, with no
/// hash held by two items.
pub open spec fn sst_index_exact(t: SharedStringTableView) -> bool {
    &&& sst_index_valid(t)
    &&& forall|i: int| 0 <= i < t.items.len() ==> t.map.contains_key(item_hash(#[trigger] t.items[i]))
    &&& item_hashes(t.items).no_duplicates()
}

proof fn lemma_register_all(items: Seq<SharedStringItemView>)
    requires
        items.len() <= usize::MAX,
    ensures
        ({
            let t = sst_register_all(
                SharedStringTableView { items: Seq::empty(), map: Map::empty(), regist_count: 0 },
                items,
            );
            &&& t.regist_count == items.len()
            &&& t.items.len() <= items.len()
            &&& sst_index_exact(t)
            &&& item_hashes(t.items).to_set() == item_hashes(items).to_set()
        }),
    decreases items.len(),
{
    broadcast use vstd::seq_lib::group_seq_properties;
    let t0 = SharedStringTableView { items: Seq::empty(), map: Map::empty(), regist_count: 0 };
    if items.len() == 0 {
        assert(item_hashes(t0.items).to_set() =~= item_hashes(items).to_set());
    } else {
        let rest = items.drop_last();
        let x = items.last();
        let h = item_hash(x);
        lemma_register_all(rest);
        let t = sst_register_all(t0, rest);
        let t2 = sst_register(t, x).0;
        assert(item_hashes(items) =~= item_hashes(rest).push(h));
        item_hashes(rest).lemma_push_to_set_commute(h);
        if t.map.contains_key(h) {
            let k = t.map[h] as int;
            assert(item_hashes(t.items)[k] == h);
            assert(item_hashes(t.items).to_set().contains(h));
            assert(item_hashes(t.items).to_set() =~= item_hashes(t.items).to_set().insert(h));
        } else {
            let n = t.items.len();
            assert(item_hashes(t2.items) =~= item_hashes(t.items).push(h));
            item_hashes(t.items).lemma_push_to_set_commute(h);
            assert forall|i: int| 0 <= i < n implies item_hash(#[trigger] t.items[i]) != h by {
                assert(t.map.contains_key(item_hash(t.items[i])));
            }
            assert forall|g: u64| #[trigger] t2.map.contains_key(g) implies t2.map[g] < t2.items.len()
                && item_hash(t2.items[t2.map[g] as int]) == g by {
                if g != h {
                    assert(t2.items[t2.map[g] as int] == t.items[t.map[g] as int]);
                }
            }
            assert forall|i: int| 0 <= i < t2.items.len() implies t2.map.contains_key(
                item_hash(#[trigger] t2.items[i]),
            ) by {
                if i < n {
                    assert(t2.items[i] == t.items[i]);
                }
            }
            assert forall|i: int, j: int|
                0 <= i < t2.items.len() && 0 <= j < t2.items.len() && i != j implies item_hashes(
                t2.items,
            )[i] != item_hashes(t2.items)[j] by {
                if i < n && j < n {
                    assert(item_hashes(t.items)[i] != item_hashes(t.items)[j]);
                } else if i < n {
                    assert(t2.items[i] == t.items[i]);
                } else {
                    assert(t2.items[j] == t.items[j]);
                }
            }
        }
    }
}

/// Registering `n` cells into an empty table and writing it gives `count="n"` and a
/// `uniqueCount` that is the number of distinct hashes among the cells' items, then
/// one `<si>` per stored item in index order; the element is written even when no
/// cell was registered.
pub proof fn law_written_counts_after_registering(items: Seq<SharedStringItemView>)
    requires
        items.len() <= usize::MAX,
    ensures
        ({
            let t = sst_register_all(
                SharedStringTableView { items: Seq::empty(), map: Map::empty(), regist_count: 0 },
                items,
            );
            &&& t.regist_count == items.len()
            &&& t.items.len() == item_hashes(items).to_set().len()
            &&& sst_xml(t) == start_tag_text(
                "sst"@,
                seq![
                    ("xmlns"@, sheet_main_ns()),
                    ("count"@, decimal(items.len())),
                    ("uniqueCount"@, decimal(item_hashes(items).to_set().len())),
                ],
                false,
            ) + sst_items_xml(t.items) + end_tag_text("sst"@)
        }),
{
    lemma_register_all(items);
    let t = sst_register_all(
        SharedStringTableView { items: Seq::empty(), map: Map::empty(), regist_count: 0 },
        items,
    );
    item_hashes(t.items).unique_seq_to_set();
}

// ---------------------------------------------------------------- keys tell items apart

/// A counted text followed by more text can be read back: the text and what follows.
proof fn lemma_counted_text_prefix(a: Seq<char>, x: Seq<char>, b: Seq<char>, y: Seq<char>)
    requires
        counted_text(a) + x == counted_text(b) + y,
    ensures
        a == b,
        x == y,
{
    lemma_decimal_injective(a.len(), b.len());
    lemma_decimal_injective(b.len(), a.len());
    assert(!is_digit(':'));
    assert(counted_text(a) + x =~= decimal(a.len()) + seq![':'] + (a + x));
    assert(counted_text(b) + y =~= decimal(b.len()) + seq![':'] + (b + y));
    lemma_split_at_separator(decimal(a.len()), a + x, decimal(b.len()), b + y, ':');
    lemma_split_at_length(a, x, b, y);
}

/// The runs' key read from the front: the first run, counted, then the others' key.
proof fn lemma_runs_key_front(runs: Seq<Seq<char>>)
    requires
        runs.len() > 0,
    ensures
        runs_key(runs) == counted_text(runs[0]) + runs_key(runs.drop_first()),
    decreases runs.len(),
{
    if runs.len() == 1 {
        assert(runs.drop_last() =~= Seq::<Seq<char>>::empty());
        assert(runs.drop_first() =~= Seq::<Seq<char>>::empty());
        assert(runs_key(runs.drop_last()) == Seq::<char>::empty());
        assert(runs_key(runs.drop_first()) == Seq::<char>::empty());
        assert(runs.last() == runs[0]);
        assert(runs_key(runs) =~= counted_text(runs[0]) + runs_key(runs.drop_first()));
    } else {
        lemma_runs_key_front(runs.drop_last());
        assert(runs.drop_last().drop_first() =~= runs.drop_first().drop_last());
        assert(runs.drop_first().last() == runs.last());
        assert(runs.drop_last()[0] == runs[0]);
        assert(runs_key(runs) =~= counted_text(runs[0]) + runs_key(runs.drop_first()));
    }
}

/// Different runs have different keys.
proof fn lemma_runs_key_injective(a: Seq<Seq<char>>, b: Seq<Seq<char>>)
    requires
        runs_key(a) == runs_key(b),
    ensures
        a == b,
    decreases a.len(),
{
    if a.len() == 0 && b.len() == 0 {
        assert(a =~= b);
    } else if a.len() == 0 {
        lemma_runs_key_front(b);
        assert(runs_key(a) =~= Seq::<char>::empty());
        assert(counted_text(b[0]).len() > 0);
    } else if b.len() == 0 {
        lemma_runs_key_front(a);
        assert(runs_key(b) =~= Seq::<char>::empty());
        assert(counted_text(a[0]).len() > 0);
    } else {
        lemma_runs_key_front(a);
        lemma_runs_key_front(b);
        lemma_counted_text_prefix(a[0], runs_key(a.drop_first()), b[0], runs_key(b.drop_first()));
        lemma_runs_key_injective(a.drop_first(), b.drop_first());
        assert(a =~= seq![a[0]] + a.drop_first());
        assert(b =~= seq![b[0]] + b.drop_first());
    }
}

/// Two shared strings with the same key text are the same string: the key holds the
/// plain text and every run's text, so strings that differ in any of them are told
/// apart.
pub proof fn law_item_key_identifies_the_item(a: SharedStringItemView, b: SharedStringItemView)
    ensures
        item_key(a) == item_key(b) ==> a == b,
{
    if item_key(a) == item_key(b) {
        let ra: Seq<char> = match a.rich_text {
            Some(r) => seq!['r'] + runs_key(r),
            None => seq!['-'],
        };
        let rb: Seq<char> = match b.rich_text {
            Some(r) => seq!['r'] + runs_key(r),
            None => seq!['-'],
        };
        let ka = item_key(a);
        match (a.text, b.text) {
            (Some(ta), Some(tb)) => {
                assert(ka.drop_first() =~= counted_text(ta) + ra);
                assert(item_key(b).drop_first() =~= counted_text(tb) + rb);
                lemma_counted_text_prefix(ta, ra, tb, rb);
            },
            (None, None) => {
                assert(ka.drop_first() =~= ra);
                assert(item_key(b).drop_first() =~= rb);
            },
            (Some(ta), None) => {
                assert(ka[0] == 't');
                assert(item_key(b)[0] == '-');
            },
            (None, Some(tb)) => {
                assert(ka[0] == '-');
                assert(item_key(b)[0] == 't');
            },
        }
        match (a.rich_text, b.rich_text) {
            (Some(x), Some(y)) => {
                assert(ra.drop_first() =~= runs_key(x));
                assert(rb.drop_first() =~= runs_key(y));
                lemma_runs_key_injective(x, y);
            },
            (Some(x), None) => {
                assert(ra[0] == 'r');
            },
            (None, Some(y)) => {
                assert(rb[0] == 'r');
            },
            (None, None) => {},
        }
    }
}

/// The index that registering a cell gives holds the cell's own string, as long as
/// the hash tells the cell's string apart from the stored ones whose key differs.
pub proof fn law_register_gives_the_cells_item(t: SharedStringTableView, item: SharedStringItemView)
    requires
        sst_index_valid(t),
        forall|j: int|
            0 <= j < t.items.len() && item_hash(#[trigger] t.items[j]) == item_hash(item) ==> item_key(
                t.items[j],
            ) == item_key(item),
    ensures
        ({
            let (t2, r) = sst_register(t, item);
            &&& r < t2.items.len()
            &&& t2.items[r as int] == item
        }),
{
    let h = item_hash(item);
    if t.map.contains_key(h) {
        let r = t.map[h] as int;
        law_item_key_identifies_the_item(t.items[r], item);
    }
}

// ---------------------------------------------------------------- written then read

/// A tag event without attributes.
pub open spec fn tag_event(kind: XmlEventKind, name: Seq<char>) -> XmlEventView {
    XmlEventView { kind, name, attributes: Seq::empty(), text: Seq::empty() }
}

/// The events of `<t>` holding `t`: the start tag, the escaped text when there is
/// any, the end tag.
pub open spec fn t_events(t: Seq<char>) -> Seq<XmlEventView> {
    seq![tag_event(XmlEventKind::Start, "t"@)] + (if t.len() == 0 {
        Seq::<XmlEventView>::empty()
    } else {
        seq![
            XmlEventView {
                kind: XmlEventKind::Text,
                name: Seq::empty(),
                attributes: Seq::empty(),
                text: escape_text(t),
            },
        ]
    }) + seq![tag_event(XmlEventKind::End, "t"@)]
}

/// The events of the runs: `<r>`, the run's `<t>`, `</r>` each.
pub open spec fn runs_events(runs: Seq<Seq<char>>) -> Seq<XmlEventView>
    decreases runs.len(),
{
    if runs.len() == 0 {
        Seq::empty()
    } else {
        runs_events(runs.drop_last()) + seq![tag_event(XmlEventKind::Start, "r"@)] + t_events(runs.last())
            + seq![tag_event(XmlEventKind::End, "r"@)]
    }
}

/// The events of a shared string: `<si>`, its text's `<t>`, its runs, `</si>`.
pub open spec fn item_events(v: SharedStringItemView) -> Seq<XmlEventView> {
    seq![tag_event(XmlEventKind::Start, "si"@)] + (match v.text {
        Some(t) => t_events(t),
        None => Seq::empty(),
    }) + (match v.rich_text {
        Some(r) => runs_events(r),
        None => Seq::empty(),
    }) + seq![tag_event(XmlEventKind::End, "si"@)]
}

/// The events of the shared strings one after another.
pub open spec fn items_events(items: Seq<SharedStringItemView>) -> Seq<XmlEventView>
    decreases items.len(),
{
    if items.len() == 0 {
        Seq::empty()
    } else {
        items_events(items.drop_last()) + item_events(items.last())
    }
}

/// Whether a shared string is written with all it holds: rich text, when present,
/// has at least one run (rich text without runs is written as nothing).
pub open spec fn item_fully_written(v: SharedStringItemView) -> bool {
    v.rich_text matches Some(r) ==> r.len() > 0
}

proof fn lemma_tag_texts()
    ensures
        event_text(tag_event(XmlEventKind::Start, "t"@)) == seq!['<', 't', '>'],
        event_text(tag_event(XmlEventKind::End, "t"@)) == seq!['<', '/', 't', '>'],
        event_text(tag_event(XmlEventKind::Start, "r"@)) == seq!['<', 'r', '>'],
        event_text(tag_event(XmlEventKind::End, "r"@)) == seq!['<', '/', 'r', '>'],
        event_text(tag_event(XmlEventKind::Start, "si"@)) == seq!['<', 's', 'i', '>'],
        event_text(tag_event(XmlEventKind::End, "si"@)) == seq!['<', '/', 's', 'i', '>'],
{
    reveal_strlit("t");
    reveal_strlit("r");
    reveal_strlit("si");
    assert(attributes_text(Seq::empty()) == Seq::<char>::empty());
    assert(event_text(tag_event(XmlEventKind::Start, "t"@)) =~= seq!['<', 't', '>']);
    assert(event_text(tag_event(XmlEventKind::End, "t"@)) =~= seq!['<', '/', 't', '>']);
    assert(event_text(tag_event(XmlEventKind::Start, "r"@)) =~= seq!['<', 'r', '>']);
    assert(event_text(tag_event(XmlEventKind::End, "r"@)) =~= seq!['<', '/', 'r', '>']);
    assert(event_text(tag_event(XmlEventKind::Start, "si"@)) =~= seq!['<', 's', 'i', '>']);
    assert(event_text(tag_event(XmlEventKind::End, "si"@)) =~= seq!['<', '/', 's', 'i', '>']);
}

proof fn lemma_single_event(e: XmlEventView)
    ensures
        events_text(seq![e]) == event_text(e),
        e.kind == XmlEventKind::Text ==> !e.text.contains('<') ==> texts_hold_no_tag(seq![e]),
        e.kind != XmlEventKind::Text ==> texts_hold_no_tag(seq![e]),
{
    assert(seq![e].drop_last() =~= Seq::<XmlEventView>::empty());
    assert(events_text(seq![e].drop_last()) == Seq::<char>::empty());
    assert(events_text(seq![e]) =~= event_text(e));
}

proof fn lemma_t_events_text(t: Seq<char>)
    ensures
        events_text(t_events(t)) == seq!['<', 't', '>'] + escape_text(t) + seq!['<', '/', 't', '>'],
        texts_hold_no_tag(t_events(t)),
{
    lemma_tag_texts();
    lemma_escape_text_plain(t);
    let a = seq![tag_event(XmlEventKind::Start, "t"@)];
    let m: Seq<XmlEventView> = if t.len() == 0 {
        Seq::<XmlEventView>::empty()
    } else {
        seq![
            XmlEventView {
                kind: XmlEventKind::Text,
                name: Seq::empty(),
                attributes: Seq::empty(),
                text: escape_text(t),
            },
        ]
    };
    let z = seq![tag_event(XmlEventKind::End, "t"@)];
    lemma_single_event(tag_event(XmlEventKind::Start, "t"@));
    lemma_single_event(tag_event(XmlEventKind::End, "t"@));
    if t.len() == 0 {
        assert(events_text(m) == Seq::<char>::empty());
        assert(escape_text(t) == Seq::<char>::empty());
        assert(texts_hold_no_tag(m));
    } else {
        lemma_single_event(m[0]);
        assert(m =~= seq![m[0]]);
    }
    lemma_events_text_append(a, m);
    lemma_events_text_append(a + m, z);
    assert(t_events(t) == a + m + z);
    assert(events_text(t_events(t)) =~= seq!['<', 't', '>'] + escape_text(t) + seq!['<', '/', 't', '>']);
}

proof fn lemma_runs_events_text(runs: Seq<Seq<char>>)
    ensures
        events_text(runs_events(runs)) == runs_xml(runs),
        texts_hold_no_tag(runs_events(runs)),
    decreases runs.len(),
{
    if runs.len() == 0 {
        assert(events_text(runs_events(runs)) == Seq::<char>::empty());
        assert(texts_hold_no_tag(runs_events(runs)));
    } else {
        lemma_runs_events_text(runs.drop_last());
        lemma_tag_texts();
        lemma_t_events_text(runs.last());
        let p = runs_events(runs.drop_last());
        let a = seq![tag_event(XmlEventKind::Start, "r"@)];
        let m = t_events(runs.last());
        let z = seq![tag_event(XmlEventKind::End, "r"@)];
        lemma_single_event(tag_event(XmlEventKind::Start, "r"@));
        lemma_single_event(tag_event(XmlEventKind::End, "r"@));
        lemma_events_text_append(p, a);
        lemma_events_text_append(p + a, m);
        lemma_events_text_append(p + a + m, z);
        assert(runs_events(runs) == p + a + m + z);
        assert(events_text(runs_events(runs)) =~= runs_xml(runs));
    }
}

proof fn lemma_item_events_text(v: SharedStringItemView)
    ensures
        events_text(item_events(v)) == item_xml(v),
        texts_hold_no_tag(item_events(v)),
{
    lemma_tag_texts();
    let a = seq![tag_event(XmlEventKind::Start, "si"@)];
    let b: Seq<XmlEventView> = match v.text {
        Some(t) => t_events(t),
        None => Seq::empty(),
    };
    let c: Seq<XmlEventView> = match v.rich_text {
        Some(r) => runs_events(r),
        None => Seq::empty(),
    };
    let z = seq![tag_event(XmlEventKind::End, "si"@)];
    lemma_single_event(tag_event(XmlEventKind::Start, "si"@));
    lemma_single_event(tag_event(XmlEventKind::End, "si"@));
    match v.text {
        Some(t) => lemma_t_events_text(t),
        None => {
            assert(events_text(b) == Seq::<char>::empty());
        },
    }
    match v.rich_text {
        Some(r) => lemma_runs_events_text(r),
        None => {
            assert(events_text(c) == Seq::<char>::empty());
        },
    }
    lemma_events_text_append(a, b);
    lemma_events_text_append(a + b, c);
    lemma_events_text_append(a + b + c, z);
    assert(item_events(v) == a + b + c + z);
    assert(events_text(item_events(v)) =~= item_xml(v));
}

proof fn lemma_items_events_text(items: Seq<SharedStringItemView>)
    ensures
        events_text(items_events(items)) == sst_items_xml(items),
        texts_hold_no_tag(items_events(items)),
    decreases items.len(),
{
    if items.len() == 0 {
        assert(events_text(items_events(items)) == Seq::<char>::empty());
        assert(texts_hold_no_tag(items_events(items)));
    } else {
        lemma_items_events_text(items.drop_last());
        lemma_item_events_text(items.last());
        lemma_events_text_append(items_events(items.drop_last()), item_events(items.last()));
    }
}

/// The item with runs read after it: rich text that holds its old runs (none when it
/// had no rich text) followed by `runs`; the item itself when there are no runs.
pub open spec fn item_with_runs(it: SharedStringItemView, runs: Seq<Seq<char>>) -> SharedStringItemView {
    if runs.len() == 0 {
        it
    } else {
        SharedStringItemView {
            rich_text: Some(
                match it.rich_text {
                    Some(r) => r,
                    None => Seq::empty(),
                } + runs,
            ),
            ..it
        }
    }
}

proof fn lemma_names_differ()
    ensures
        "t"@ != "si"@,
        "r"@ != "si"@,
        "t"@ != "r"@,
        "si"@ != "sst"@,
        "t"@ == seq!['t'],
        "r"@ == seq!['r'],
{
    reveal_strlit("t");
    reveal_strlit("r");
    reveal_strlit("si");
    reveal_strlit("sst");
    assert("t"@.len() != "si"@.len());
    assert("r"@.len() != "si"@.len());
    assert("t"@[0] != "r"@[0]);
    assert("si"@.len() != "sst"@.len());
    assert("t"@ =~= seq!['t']);
    assert("r"@ =~= seq!['r']);
}

/// Reading the events of `<t>` holding `txt`, inside a `<si>`, gives the item that
/// text (or, inside a run, the run) and leaves the reader as it was.
proof fn lemma_read_t(
    tb: SharedStringTableView,
    it: SharedStringItemView,
    st: SharedStringItemReaderView,
    n: nat,
    all: Seq<XmlEventView>,
    i: int,
    txt: Seq<char>,
)
    requires
        0 <= i,
        i + t_events(txt).len() <= all.len(),
        all.subrange(i, i + t_events(txt).len()) == t_events(txt),
        !st.in_text,
        st.buffer == Seq::<char>::empty(),
    ensures
        sst_run(tb, Some((it, st)), n, all, i) == sst_run(
            tb,
            Some((item_with_text(it, st.in_run, txt), st)),
            n,
            all,
            i + t_events(txt).len(),
        ),
{
    lemma_names_differ();
    law_escaped_text_reads_back(txt);
    lemma_escape_text_plain(txt);
    let ev = t_events(txt);
    assert(all[i] == ev[0]);
    let st1 = SharedStringItemReaderView { in_text: true, buffer: Seq::empty(), ..st };
    assert(sst_step(tb, Some((it, st)), n, all[i]) == (
        tb,
        Some((it, st1)),
        n,
        None::<ListEnd>,
    ));
    assert(sst_run(tb, Some((it, st)), n, all, i) == sst_run(tb, Some((it, st1)), n, all, i + 1));
    let end_at = i + ev.len() - 1;
    assert(all[end_at] == ev[ev.len() - 1]);
    let st2 = SharedStringItemReaderView { buffer: txt, ..st1 };
    if txt.len() > 0 {
        assert(all[i + 1] == ev[1]);
        let raw = escape_text(txt);
        assert(text_unescaped(raw) == Some(txt));
        assert(sst_step(tb, Some((it, st1)), n, all[i + 1]) == (
            tb,
            Some((it, st2)),
            n,
            None::<ListEnd>,
        ));
        assert(sst_run(tb, Some((it, st1)), n, all, i + 1) == sst_run(tb, Some((it, st2)), n, all, i + 2));
    } else {
        assert(st2 == st1);
    }
    assert(end_at == if txt.len() > 0 { i + 2 } else { i + 1 });
    assert(st == SharedStringItemReaderView { in_text: false, buffer: Seq::empty(), ..st2 });
    assert(sst_step(tb, Some((it, st2)), n, all[end_at]) == (
        tb,
        Some((item_with_text(it, st.in_run, txt), st)),
        n,
        None::<ListEnd>,
    ));
}

proof fn lemma_subrange_split(all: Seq<XmlEventView>, i: int, a: Seq<XmlEventView>, b: Seq<XmlEventView>)
    requires
        0 <= i,
        i + (a + b).len() <= all.len(),
        all.subrange(i, i + (a + b).len()) == a + b,
    ensures
        all.subrange(i, i + a.len()) == a,
        all.subrange(i + a.len(), i + a.len() + b.len()) == b,
{
    assert forall|k: int| 0 <= k < a.len() implies all.subrange(i, i + a.len())[k] == a[k] by {
        assert(all.subrange(i, i + (a + b).len())[k] == (a + b)[k]);
    }
    assert forall|k: int| 0 <= k < b.len() implies all.subrange(i + a.len(), i + a.len() + b.len())[k]
        == b[k] by {
        assert(all.subrange(i, i + (a + b).len())[a.len() + k] == (a + b)[a.len() + k]);
        assert(all.subrange(i, i + (a + b).len())[a.len() + k] == all[i + a.len() + k]);
        assert(all.subrange(i + a.len(), i + a.len() + b.len())[k] == all[i + a.len() + k]);
        assert((a + b)[a.len() + k] == b[k]);
    }
    assert(all.subrange(i, i + a.len()) =~= a);
    assert(all.subrange(i + a.len(), i + a.len() + b.len()) =~= b);
}

/// Reading the events of runs, inside a `<si>` and outside any `<t>` or `<r>`, adds
/// the runs to the item's rich text and leaves the reader as it was.
proof fn lemma_read_runs(
    tb: SharedStringTableView,
    it: SharedStringItemView,
    st: SharedStringItemReaderView,
    n: nat,
    all: Seq<XmlEventView>,
    i: int,
    runs: Seq<Seq<char>>,
)
    requires
        0 <= i,
        i + runs_events(runs).len() <= all.len(),
        all.subrange(i, i + runs_events(runs).len()) == runs_events(runs),
        !st.in_text,
        !st.in_run,
        st.buffer == Seq::<char>::empty(),
    ensures
        sst_run(tb, Some((it, st)), n, all, i) == sst_run(
            tb,
            Some((item_with_runs(it, runs), st)),
            n,
            all,
            i + runs_events(runs).len(),
        ),
    decreases runs.len(),
{
    if runs.len() > 0 {
        lemma_names_differ();
        let p = runs_events(runs.drop_last());
        let a = seq![tag_event(XmlEventKind::Start, "r"@)];
        let m = t_events(runs.last());
        let z = seq![tag_event(XmlEventKind::End, "r"@)];
        assert(runs_events(runs) == p + a + m + z);
        lemma_subrange_split(all, i, p + a + m, z);
        lemma_subrange_split(all, i, p + a, m);
        lemma_subrange_split(all, i, p, a);
        lemma_read_runs(tb, it, st, n, all, i, runs.drop_last());
        let it1 = item_with_runs(it, runs.drop_last());
        let j = i + p.len();
        assert(all[j] == all.subrange(j, j + 1)[0]);
        assert(all[j] == tag_event(XmlEventKind::Start, "r"@));
        let old_runs: Seq<Seq<char>> = match it1.rich_text {
            Some(r) => r,
            None => Seq::empty(),
        };
        let it2 = SharedStringItemView { rich_text: Some(old_runs), ..it1 };
        let st_run = SharedStringItemReaderView { in_run: true, ..st };
        assert(sst_step(tb, Some((it1, st)), n, all[j]) == (
            tb,
            Some((it2, st_run)),
            n,
            None::<ListEnd>,
        ));
        lemma_read_t(tb, it2, st_run, n, all, j + 1, runs.last());
        let it3 = item_with_text(it2, true, runs.last());
        let k = j + 1 + m.len();
        assert(all[k] == all.subrange(k, k + 1)[0]);
        assert(all[k] == tag_event(XmlEventKind::End, "r"@));
        assert(sst_step(tb, Some((it3, st_run)), n, all[k]) == (
            tb,
            Some((it3, st)),
            n,
            None::<ListEnd>,
        ));
        assert(it3 == item_with_runs(it, runs)) by {
            let base: Seq<Seq<char>> = match it.rich_text {
                Some(r) => r,
                None => Seq::empty(),
            };
            if runs.drop_last().len() == 0 {
                assert(old_runs == base);
            } else {
                assert(old_runs == base + runs.drop_last());
            }
            assert(old_runs.push(runs.last()) =~= base + runs);
        }
    }
}

/// Reading the events of a shared string, between items, adds the string to the
/// table as the `n`-th item read.
proof fn lemma_read_item(tb: SharedStringTableView, n: nat, all: Seq<XmlEventView>, i: int, v: SharedStringItemView)
    requires
        0 <= i,
        i + item_events(v).len() <= all.len(),
        all.subrange(i, i + item_events(v).len()) == item_events(v),
        item_fully_written(v),
    ensures
        sst_run(tb, None, n, all, i) == sst_run(
            sst_add_read(tb, v, n),
            None,
            n + 1,
            all,
            i + item_events(v).len(),
        ),
{
    lemma_names_differ();
    reveal_strlit("si");
    reveal_strlit("sst");
    let a = seq![tag_event(XmlEventKind::Start, "si"@)];
    let b: Seq<XmlEventView> = match v.text {
        Some(t) => t_events(t),
        None => Seq::empty(),
    };
    let c: Seq<XmlEventView> = match v.rich_text {
        Some(r) => runs_events(r),
        None => Seq::empty(),
    };
    let z = seq![tag_event(XmlEventKind::End, "si"@)];
    assert(item_events(v) == a + b + c + z);
    lemma_subrange_split(all, i, a + b + c, z);
    lemma_subrange_split(all, i, a + b, c);
    lemma_subrange_split(all, i, a, b);
    assert(all[i] == all.subrange(i, i + 1)[0]);
    assert(all[i] == tag_event(XmlEventKind::Start, "si"@));
    assert(list_read_action(XmlEventKind::Start, "si"@, "si"@, "sst"@) == ReadAction::ReadItem);
    assert(sst_run(tb, None, n, all, i) == sst_run(tb, Some((empty_item(), fresh_reader())), n, all, i + 1));
    let it1: SharedStringItemView = match v.text {
        Some(t) => item_with_text(empty_item(), false, t),
        None => empty_item(),
    };
    if let Some(t) = v.text {
        lemma_read_t(tb, empty_item(), fresh_reader(), n, all, i + 1, t);
    }
    assert(sst_run(tb, None, n, all, i) == sst_run(tb, Some((it1, fresh_reader())), n, all, i + 1 + b.len()));
    let it2: SharedStringItemView = match v.rich_text {
        Some(r) => item_with_runs(it1, r),
        None => it1,
    };
    if let Some(r) = v.rich_text {
        lemma_read_runs(tb, it1, fresh_reader(), n, all, i + 1 + b.len(), r);
        assert(it1.rich_text is None);
        assert(Seq::<Seq<char>>::empty() + r =~= r);
    }
    let k = i + 1 + b.len() + c.len();
    assert(sst_run(tb, None, n, all, i) == sst_run(tb, Some((it2, fresh_reader())), n, all, k));
    assert(all[k] == all.subrange(k, k + 1)[0]);
    assert(all[k] == tag_event(XmlEventKind::End, "si"@));
    assert(it2 == v);
    assert(sst_step(tb, Some((it2, fresh_reader())), n, all[k]) == (
        sst_add_read(tb, v, n),
        None::<(SharedStringItemView, SharedStringItemReaderView)>,
        n + 1,
        None::<ListEnd>,
    ));
}

/// The table after adding items read from the document, the first as the `n`-th.
pub open spec fn sst_add_reads(t: SharedStringTableView, items: Seq<SharedStringItemView>, n: nat) -> SharedStringTableView
    decreases items.len(),
{
    if items.len() == 0 {
        t
    } else {
        sst_add_read(sst_add_reads(t, items.drop_last(), n), items.last(), (n + items.len() - 1) as nat)
    }
}

proof fn lemma_read_items(
    tb: SharedStringTableView,
    n: nat,
    all: Seq<XmlEventView>,
    i: int,
    items: Seq<SharedStringItemView>,
)
    requires
        0 <= i,
        i + items_events(items).len() <= all.len(),
        all.subrange(i, i + items_events(items).len()) == items_events(items),
        forall|k: int| 0 <= k < items.len() ==> item_fully_written(#[trigger] items[k]),
    ensures
        sst_run(tb, None, n, all, i) == sst_run(
            sst_add_reads(tb, items, n),
            None,
            n + items.len(),
            all,
            i + items_events(items).len(),
        ),
        sst_add_reads(tb, items, n).items == tb.items + items,
    decreases items.len(),
{
    if items.len() == 0 {
        assert(tb.items + items =~= tb.items);
    } else {
        let p = items_events(items.drop_last());
        let q = item_events(items.last());
        assert(items_events(items) == p + q);
        lemma_subrange_split(all, i, p, q);
        assert forall|k: int| 0 <= k < items.drop_last().len() implies item_fully_written(
            #[trigger] items.drop_last()[k],
        ) by {
            assert(items.drop_last()[k] == items[k]);
        }
        lemma_read_items(tb, n, all, i, items.drop_last());
        assert(item_fully_written(items[items.len() - 1]));
        lemma_read_item(
            sst_add_reads(tb, items.drop_last(), n),
            (n + items.len() - 1) as nat,
            all,
            i + p.len(),
            items.last(),
        );
        assert(sst_add_reads(tb, items, n).items =~= tb.items + items);
    }
}

/// What a table is written as reads back as the same shared strings: the `<sst>`
/// element holds, between its tags, the text of the items' events (`<si>`, each
/// `<t>` with its text escaped, each run's `<r>`), no text event holds a tag, and
/// reading those events after `<sst>` gives back the table's items in order and ends
/// at `</sst>`. Rich text is written only when it has a run, so each item whose rich
/// text is present has one.
pub proof fn law_written_table_reads_back(t: SharedStringTableView)
    requires
        forall|k: int| 0 <= k < t.items.len() ==> item_fully_written(#[trigger] t.items[k]),
    ensures
        ({
            let events = items_events(t.items);
            let read = sst_run(
                SharedStringTableView { items: Seq::empty(), map: Map::empty(), regist_count: 0 },
                None,
                0,
                events + seq![tag_event(XmlEventKind::End, "sst"@)],
                0,
            );
            &&& sst_xml(t) == start_tag_text(
                "sst"@,
                seq![
                    ("xmlns"@, sheet_main_ns()),
                    ("count"@, decimal(t.regist_count)),
                    ("uniqueCount"@, decimal(t.items.len())),
                ],
                false,
            ) + events_text(events) + end_tag_text("sst"@)
            &&& texts_hold_no_tag(events)
            &&& read.0.items == t.items
            &&& read.1 == ListEnd::Finished
        }),
{
    reveal_strlit("si");
    reveal_strlit("sst");
    assert("si"@.len() != "sst"@.len());
    let events = items_events(t.items);
    let end = tag_event(XmlEventKind::End, "sst"@);
    let all = events + seq![end];
    let t0 = SharedStringTableView { items: Seq::empty(), map: Map::empty(), regist_count: 0 };
    lemma_items_events_text(t.items);
    assert(all.subrange(0, events.len() as int) =~= events);
    lemma_read_items(t0, 0, all, 0, t.items);
    assert(t0.items + t.items =~= t.items);
    let t1 = sst_add_reads(t0, t.items, 0);
    assert(all[events.len() as int] == end);
    assert(list_read_action(XmlEventKind::End, "sst"@, "si"@, "sst"@) == ReadAction::Finish);
    assert(sst_run(t1, None, t.items.len(), all, events.len() as int) == (t1, ListEnd::Finished, events.len() as int + 1));
}

} // verus!
