//! WebDAV `PROPFIND` responses: the entries of a `multistatus` document, read
//! event by event with `quick_xml`.
use vstd::prelude::*;
use crate::text::{
    after_last, chars_of, concat, lower_seq, push_char, str_eq, to_ascii_lowercase, to_owned,
    trim, trim_seq,
};

verus! {

#[verifier::external_type_specification]
#[verifier::external_body]
#[verifier::reject_recursive_types(R)]
pub struct ExXmlReader<R>(quick_xml::Reader<R>);

pub const WEBDAV_XML_ERROR_PREFIX: &'static str = "Failed to parse WebDAV response XML: ";

/// One `response` of a WebDAV multistatus document.
#[derive(Debug, Clone, Default)]
pub struct WebDavEntry {
    pub href: String,
    pub display_name: String,
    pub content_length: u64,
    pub content_type: String,
    pub etag: String,
    pub modified_at: String,
    pub is_collection: bool,
}

/// An XML event as the parser sees it: element names and text as they
/// stand in the document.
#[derive(Debug)]
pub enum XmlEvent {
    Start(String),
    End(String),
    Text(String),
    Eof,
    Error(String),
    Other,
}

/// An XML event with its texts as character sequences.
pub enum XmlEventView {
    Start(Seq<char>),
    End(Seq<char>),
    Text(Seq<char>),
    Eof,
    Error(Seq<char>),
    Other,
}

impl View for XmlEvent {
    type V = XmlEventView;

    open spec fn view(&self) -> XmlEventView {
        match self {
            XmlEvent::Start(name) => XmlEventView::Start(name@),
            XmlEvent::End(name) => XmlEventView::End(name@),
            XmlEvent::Text(content) => XmlEventView::Text(content@),
            XmlEvent::Eof => XmlEventView::Eof,
            XmlEvent::Error(message) => XmlEventView::Error(message@),
            XmlEvent::Other => XmlEventView::Other,
        }
    }
}

/// The views of `events`.
pub open spec fn event_views(events: Seq<XmlEvent>) -> Seq<XmlEventView> {
    events.map_values(|e: XmlEvent| e@)
}

/// The event at position `index` (counting from zero) of the events that a
/// `quick_xml` reader over `text`, trimming the text around events, yields
/// one `read_event` call after another, converted as `next_xml_event`
/// converts it. The reader's events depend on the text alone.
pub uninterp spec fn quick_xml_event(text: Seq<char>, index: nat) -> XmlEventView;

/// A `quick_xml` reader over a document, with the document and the number of
/// events read so far.
pub struct XmlEventReader<'a> {
    reader: quick_xml::Reader<&'a [u8]>,
    text: Ghost<Seq<char>>,
    read: Ghost<nat>,
}

impl<'a> XmlEventReader<'a> {
    /// The document being read.
    pub closed spec fn text(&self) -> Seq<char> {
        self.text@
    }

    /// How many events have been read.
    pub closed spec fn read(&self) -> nat {
        self.read@
    }
}

/// A reader at the start of `xml` that trims the text around events
/// (`quick_xml::Reader::from_str` with `trim_text(true)`).
#[verifier::external_body]
pub(crate) fn xml_reader<'a>(xml: &'a str) -> (r: XmlEventReader<'a>)
    ensures
        r.text() == xml@,
        r.read() == 0,
{
    let mut reader = quick_xml::Reader::from_str(xml);
    reader.config_mut().trim_text(true);
    XmlEventReader { reader, text: Ghost(xml@), read: Ghost(0) }
}

/// The next event of the reader (`Reader::read_event`), converted: start and
/// end tags carry their qualified name, text its content, an error its
/// message. It is the event at the reader's count of events read, which
/// grows by one.
#[verifier::external_body]
pub(crate) fn next_xml_event(events: &mut XmlEventReader) -> (r: XmlEvent)
    ensures
        r@ == quick_xml_event(old(events).text(), old(events).read()),
        final(events).text() == old(events).text(),
        final(events).read() == old(events).read() + 1,
{
    match events.reader.read_event() {
        Ok(quick_xml::events::Event::Start(e)) => XmlEvent::Start(String::from(e.name().as_ref())),
        Ok(quick_xml::events::Event::End(e)) => XmlEvent::End(String::from(e.name().as_ref())),
        Ok(quick_xml::events::Event::Text(e)) => XmlEvent::Text(String::from(&*e)),
        Ok(quick_xml::events::Event::Eof) => XmlEvent::Eof,
        Err(error) => XmlEvent::Error(error.to_string()),
        Ok(_) => XmlEvent::Other,
    }
}

/// The local part of an element name: after its last `:`, ASCII
/// lower-cased.
pub open spec fn local_name(name: Seq<char>) -> Seq<char> {
    lower_seq(after_last(name, ':'))
}

/// The local part of an element name.
pub fn local_xml_name(name: &str) -> (r: String)
    ensures
        r@ == local_name(name@),
{
    let local = crate::text::split_last(name, ':');
    to_ascii_lowercase(local.as_str())
}

/// The value of the decimal text `s` (an optional `+`, then digits) when it
/// fits in a `u64`, as `str::parse::<u64>` reads it.
pub open spec fn parsed_u64(s: Seq<char>) -> Option<u64> {
    let digits = sign_stripped(s);
    if digits.len() > 0 && all_ascii_digits(digits) && crate::external_sources::digits_value(digits)
        <= u64::MAX {
        Some(crate::external_sources::digits_value(digits) as u64)
    } else {
        None
    }
}

/// `s` without a leading `+`.
pub open spec fn sign_stripped(s: Seq<char>) -> Seq<char> {
    if s.len() > 0 && s[0] == '+' {
        s.drop_first()
    } else {
        s
    }
}

/// Every character of `s` is an ASCII digit.
pub open spec fn all_ascii_digits(s: Seq<char>) -> bool {
    forall|i: int| 0 <= i < s.len() ==> crate::text::is_ascii_digit(#[trigger] s[i])
}

/// The value of a decimal text, when it is one that fits in a `u64`.
pub fn parse_u64(text: &str) -> (r: Option<u64>)
    ensures
        r == parsed_u64(text@),
{
    let v = chars_of(text);
    let start: usize = if v.len() > 0 && v[0] == '+' {
        1
    } else {
        0
    };
    let ghost digits = v@.skip(start as int);
    assert(digits =~= sign_stripped(v@));
    if start >= v.len() {
        return None;
    }
    let mut value: u64 = 0;
    let mut i: usize = start;
    while i < v.len()
        invariant
            start <= i <= v.len(),
            v@ == text@,
            digits == v@.skip(start as int),
            digits =~= sign_stripped(text@),
            digits.len() > 0,
            forall|k: int| start <= k < i ==> crate::text::is_ascii_digit(#[trigger] v@[k]),
            value == crate::external_sources::digits_value(v@.subrange(start as int, i as int)),
        decreases v.len() - i,
    {
        let c = v[i];
        if !('0' <= c && c <= '9') {
            proof {
                let k = (i - start) as int;
                assert(digits[k] == v@[i as int]);
                assert(!crate::text::is_ascii_digit(digits[k]));
                assert(!all_ascii_digits(digits));
                assert(parsed_u64(text@) is None);
            }
            return None;
        }
        assert(v@.subrange(start as int, i + 1).drop_last() =~= v@.subrange(start as int, i as int));
        let d = (c as u32 - 48) as u64;
        if value > (u64::MAX - d) / 10 {
            proof {
                assert(value * 10 + d > u64::MAX) by (nonlinear_arith)
                    requires
                        value > (u64::MAX - d) / 10,
                        d <= 9,
                ;
                assert(v@.subrange(start as int, i + 1) =~= digits.take((i + 1 - start) as int));
                if all_ascii_digits(digits) {
                    lemma_digits_grow(v@.subrange(start as int, i + 1), digits, (i + 1 - start) as int);
                    assert(crate::external_sources::digits_value(v@.subrange(start as int, i + 1)) == value * 10 + d);
                }
                assert(parsed_u64(text@) is None);
            }
            return None;
        }
        value = value * 10 + d;
        i += 1;
    }
    assert(v@.subrange(start as int, v@.len() as int) =~= digits);
    Some(value)
}

proof fn lemma_digits_grow(prefix: Seq<char>, all: Seq<char>, n: int)
    requires
        0 < n <= all.len(),
        prefix == all.take(n),
        forall|i: int| 0 <= i < all.len() ==> crate::text::is_ascii_digit(#[trigger] all[i]),
    ensures
        crate::external_sources::digits_value(all) >= crate::external_sources::digits_value(prefix),
    decreases all.len() - n,
{
    if n < all.len() {
        lemma_digits_grow(all.take(n + 1), all, n + 1);
        assert(all.take(n + 1).drop_last() =~= all.take(n));
        assert(all.take(n) == prefix);
    } else {
        assert(all.take(n) =~= all);
    }
}

/// The text parts of an entry.
pub open spec fn entry_view(e: WebDavEntry) -> (Seq<char>, Seq<char>, u64, Seq<char>, Seq<char>, Seq<char>, bool) {
    (e.href@, e.display_name@, e.content_length, e.content_type@, e.etag@, e.modified_at@, e.is_collection)
}

/// The fields whose text an entry records.
pub open spec fn entry_fields() -> Seq<Seq<char>> {
    seq![
        "href"@,
        "displayname"@,
        "getcontentlength"@,
        "getcontenttype"@,
        "getetag"@,
        "getlastmodified"@,
    ]
}

/// An empty entry.
pub open spec fn empty_entry() -> (Seq<char>, Seq<char>, u64, Seq<char>, Seq<char>, Seq<char>, bool) {
    (seq![], seq![], 0, seq![], seq![], seq![], false)
}

/// `current` with the text of `field` recorded.
pub open spec fn with_field(
    current: (Seq<char>, Seq<char>, u64, Seq<char>, Seq<char>, Seq<char>, bool),
    field: Seq<char>,
    text: Seq<char>,
) -> (Seq<char>, Seq<char>, u64, Seq<char>, Seq<char>, Seq<char>, bool) {
    if field == "href"@ {
        (text, current.1, current.2, current.3, current.4, current.5, current.6)
    } else if field == "displayname"@ {
        (current.0, text, current.2, current.3, current.4, current.5, current.6)
    } else if field == "getcontentlength"@ {
        (
            current.0,
            current.1,
            match parsed_u64(text) {
                Some(n) => n,
                None => 0,
            },
            current.3,
            current.4,
            current.5,
            current.6,
        )
    } else if field == "getcontenttype"@ {
        (current.0, current.1, current.2, text, current.4, current.5, current.6)
    } else if field == "getetag"@ {
        (current.0, current.1, current.2, current.3, text, current.5, current.6)
    } else if field == "getlastmodified"@ {
        (current.0, current.1, current.2, current.3, current.4, text, current.6)
    } else {
        current
    }
}

/// The entries that `events[i..]` complete, starting from the entries
/// already complete, the entry being read and the field whose text comes
/// next; `Err` with the parser's message at an error. Reading stops at the
/// end of the document.
pub open spec fn entries_from(
    events: Seq<XmlEventView>,
    i: int,
    done: Seq<(Seq<char>, Seq<char>, u64, Seq<char>, Seq<char>, Seq<char>, bool)>,
    current: Option<(Seq<char>, Seq<char>, u64, Seq<char>, Seq<char>, Seq<char>, bool)>,
    active: Seq<char>,
) -> Result<Seq<(Seq<char>, Seq<char>, u64, Seq<char>, Seq<char>, Seq<char>, bool)>, Seq<char>>
    decreases events.len() - i,
{
    if i < 0 || i >= events.len() {
        Ok(done)
    } else {
        match events[i] {
            XmlEventView::Eof => Ok(done),
            XmlEventView::Error(message) => Err(WEBDAV_XML_ERROR_PREFIX@ + message),
            XmlEventView::Start(name) => {
                let n = local_name(name);
                if n == "response"@ {
                    entries_from(events, i + 1, done, Some(empty_entry()), active)
                } else if entry_fields().contains(n) {
                    entries_from(events, i + 1, done, current, n)
                } else if n == "collection"@ && current is Some {
                    let c = current->0;
                    entries_from(events, i + 1, done, Some((c.0, c.1, c.2, c.3, c.4, c.5, true)), active)
                } else {
                    entries_from(events, i + 1, done, current, active)
                }
            },
            XmlEventView::Text(content) => {
                let text = trim_seq(content);
                if text.len() == 0 || current is None {
                    entries_from(events, i + 1, done, current, active)
                } else {
                    entries_from(events, i + 1, done, Some(with_field(current->0, active, text)), active)
                }
            },
            XmlEventView::End(name) => {
                if local_name(name) == "response"@ && current is Some {
                    entries_from(events, i + 1, done.push(current->0), None, seq![])
                } else if local_name(name) == "response"@ {
                    entries_from(events, i + 1, done, None, seq![])
                } else {
                    entries_from(events, i + 1, done, current, seq![])
                }
            },
            XmlEventView::Other => entries_from(events, i + 1, done, current, active),
        }
    }
}

/// `r` is what `events` describe.
pub open spec fn entries_result_matches(r: Result<Vec<WebDavEntry>, String>, events: Seq<XmlEventView>) -> bool {
    match r {
        Ok(v) => entries_from(events, 0, seq![], None, seq![]) == Ok::<
            Seq<(Seq<char>, Seq<char>, u64, Seq<char>, Seq<char>, Seq<char>, bool)>,
            Seq<char>,
        >(v@.map_values(|e: WebDavEntry| entry_view(e))),
        Err(e) => entries_from(events, 0, seq![], None, seq![]) == Err::<
            Seq<(Seq<char>, Seq<char>, u64, Seq<char>, Seq<char>, Seq<char>, bool)>,
            Seq<char>,
        >(e@),
    }
}

fn copy_entry(e: &WebDavEntry) -> (r: WebDavEntry)
    ensures
        entry_view(r) == entry_view(*e),
{
    WebDavEntry {
        href: e.href.clone(),
        display_name: e.display_name.clone(),
        content_length: e.content_length,
        content_type: e.content_type.clone(),
        etag: e.etag.clone(),
        modified_at: e.modified_at.clone(),
        is_collection: e.is_collection,
    }
}

fn record_field(entry: &mut WebDavEntry, field: &str, text: String)
    ensures
        entry_view(*final(entry)) == with_field(entry_view(*old(entry)), field@, text@),
{
    proof {
        reveal_strlit("href");
        reveal_strlit("displayname");
        reveal_strlit("getcontentlength");
        reveal_strlit("getcontenttype");
        reveal_strlit("getetag");
        reveal_strlit("getlastmodified");
    }
    if str_eq(field, "href") {
        entry.href = text;
    } else if str_eq(field, "displayname") {
        entry.display_name = text;
    } else if str_eq(field, "getcontentlength") {
        entry.content_length = match parse_u64(text.as_str()) {
            Some(n) => n,
            None => 0,
        };
    } else if str_eq(field, "getcontenttype") {
        entry.content_type = text;
    } else if str_eq(field, "getetag") {
        entry.etag = text;
    } else if str_eq(field, "getlastmodified") {
        entry.modified_at = text;
    }
}

fn is_entry_field(name: &str) -> (r: bool)
    ensures
        r == entry_fields().contains(name@),
{
    let fields: [&str; 6] = [
        "href",
        "displayname",
        "getcontentlength",
        "getcontenttype",
        "getetag",
        "getlastmodified",
    ];
    let r = crate::text::str_in(name, &fields);
    proof {
        assert(fields@.map_values(|f: &str| f@) =~= entry_fields());
        if r {
            let i = choose|i: int| 0 <= i < fields@.len() && fields@[i]@ == name@;
            assert(entry_fields()[i] == name@);
        }
        if entry_fields().contains(name@) {
            let i = choose|i: int| 0 <= i < entry_fields().len() && entry_fields()[i] == name@;
            assert(fields@[i]@ == name@);
        }
    }
    r
}

fn empty_webdav_entry() -> (r: WebDavEntry)
    ensures
        entry_view(r) == empty_entry(),
{
    WebDavEntry {
        href: String::new(),
        display_name: String::new(),
        content_length: 0,
        content_type: String::new(),
        etag: String::new(),
        modified_at: String::new(),
        is_collection: false,
    }
}

/// The entries that a sequence of XML events describes: each `response`
/// element becomes an entry with the text of its `href`, `displayname`,
/// `getcontentlength` (zero unless it is a number), `getcontenttype`,
/// `getetag` and `getlastmodified` elements, marked a collection when a
/// `collection` element opens inside it. Reading stops at the end of the
/// document; an error event fails the whole document.
pub fn entries_from_xml_events(events: &Vec<XmlEvent>) -> (r: Result<Vec<WebDavEntry>, String>)
    ensures
        entries_result_matches(r, event_views(events@)),
{
    let mut done: Vec<WebDavEntry> = Vec::new();
    let mut current: Option<WebDavEntry> = None;
    let mut active = String::new();
    assert(done@.map_values(|e: WebDavEntry| entry_view(e)) =~= Seq::<(Seq<char>, Seq<char>, u64, Seq<char>, Seq<char>, Seq<char>, bool)>::empty());
    assert(active@ =~= Seq::<char>::empty());
    let mut i: usize = 0;
    proof {
        reveal_strlit("response");
        reveal_strlit("collection");
    }
    while i < events.len()
        invariant
            i <= events@.len(),
            entries_from(event_views(events@), 0, seq![], None, seq![]) == entries_from(
                event_views(events@),
                i as int,
                done@.map_values(|e: WebDavEntry| entry_view(e)),
                match current {
                    Some(c) => Some(entry_view(c)),
                    None => None,
                },
                active@,
            ),
        decreases events@.len() - i,
    {
        let ghost view_done = done@.map_values(|e: WebDavEntry| entry_view(e));
        assert(event_views(events@)[i as int] == events@[i as int]@);
        match &events[i] {
            XmlEvent::Eof => {
                return Ok(done);
            },
            XmlEvent::Error(message) => {
                return Err(concat(WEBDAV_XML_ERROR_PREFIX, message.as_str()));
            },
            XmlEvent::Start(name) => {
                let n = local_xml_name(name.as_str());
                if str_eq(n.as_str(), "response") {
                    current = Some(empty_webdav_entry());
                } else if is_entry_field(n.as_str()) {
                    active = n;
                } else if str_eq(n.as_str(), "collection") {
                    match &mut current {
                        Some(c) => {
                            c.is_collection = true;
                        },
                        None => {},
                    }
                }
            },
            XmlEvent::Text(content) => {
                let text = trim(content.as_str());
                if !text.as_str().is_empty() {
                    match &mut current {
                        Some(c) => {
                            record_field(c, active.as_str(), text);
                        },
                        None => {},
                    }
                }
            },
            XmlEvent::End(name) => {
                let n = local_xml_name(name.as_str());
                if str_eq(n.as_str(), "response") {
                    match current {
                        Some(c) => {
                            done.push(c);
                            assert(done@.map_values(|e: WebDavEntry| entry_view(e)) =~= view_done.push(
                                entry_view(done@.last()),
                            ));
                        },
                        None => {},
                    }
                    current = None;
                }
                active = String::new();
            },
            XmlEvent::Other => {},
        }
        i += 1;
    }
    Ok(done)
}

/// What the reader reports when it yields more events than `xml` has bytes
/// without reaching the end of the document.
pub const READER_STALLED_MESSAGE: &'static str = "the reader did not reach the end of the document";

/// The text of each property element lands in the entry field of the same
/// name, and only there: for an entry `f` that differs from `e` at most in
/// one field, recording that field's element with `f`'s text turns `e` into
/// `f` (`href` into the href, `displayname` into the display name,
/// `getcontenttype` into the content type, `getetag` into the ETag and
/// `getlastmodified` into the modification date).
pub proof fn law_property_text_fills_its_own_field(e: WebDavEntry, f: WebDavEntry)
    ensures
        (f.display_name@ == e.display_name@ && f.content_length == e.content_length && f.content_type@
            == e.content_type@ && f.etag@ == e.etag@ && f.modified_at@ == e.modified_at@
            && f.is_collection == e.is_collection) ==> with_field(entry_view(e), "href"@, f.href@)
            == entry_view(f),
        (f.href@ == e.href@ && f.content_length == e.content_length && f.content_type@ == e.content_type@
            && f.etag@ == e.etag@ && f.modified_at@ == e.modified_at@ && f.is_collection == e.is_collection)
            ==> with_field(entry_view(e), "displayname"@, f.display_name@) == entry_view(f),
        (f.href@ == e.href@ && f.display_name@ == e.display_name@ && f.content_length == e.content_length
            && f.etag@ == e.etag@ && f.modified_at@ == e.modified_at@ && f.is_collection == e.is_collection)
            ==> with_field(entry_view(e), "getcontenttype"@, f.content_type@) == entry_view(f),
        (f.href@ == e.href@ && f.display_name@ == e.display_name@ && f.content_length == e.content_length
            && f.content_type@ == e.content_type@ && f.modified_at@ == e.modified_at@ && f.is_collection
            == e.is_collection) ==> with_field(entry_view(e), "getetag"@, f.etag@) == entry_view(f),
        (f.href@ == e.href@ && f.display_name@ == e.display_name@ && f.content_length == e.content_length
            && f.content_type@ == e.content_type@ && f.etag@ == e.etag@ && f.is_collection == e.is_collection)
            ==> with_field(entry_view(e), "getlastmodified"@, f.modified_at@) == entry_view(f),
{
    reveal_strlit("href");
    reveal_strlit("displayname");
    reveal_strlit("getcontentlength");
    reveal_strlit("getcontenttype");
    reveal_strlit("getetag");
    reveal_strlit("getlastmodified");
    assert("href"@.len() == 4 && "displayname"@.len() == 11 && "getcontentlength"@.len() == 16);
    assert("getcontenttype"@.len() == 14 && "getetag"@.len() == 7 && "getlastmodified"@.len() == 15);
}

/// A content length is recorded as the number its text reads as, zero
/// when it reads as none; nothing else of the entry changes.
pub proof fn law_content_length_reads_its_number(c: (Seq<char>, Seq<char>, u64, Seq<char>, Seq<char>, Seq<char>, bool), text: Seq<char>)
    ensures
        with_field(c, "getcontentlength"@, text) == (c.0, c.1, match parsed_u64(text) {
            Some(n) => n,
            None => 0u64,
        }, c.3, c.4, c.5, c.6),
{
    reveal_strlit("href");
    reveal_strlit("displayname");
    reveal_strlit("getcontentlength");
    assert("href"@.len() == 4 && "displayname"@.len() == 11 && "getcontentlength"@.len() == 16);
}

/// The events read from a document of `budget` bytes: the reader's first
/// `budget + 1` events, then the report that it stalled. Reading stops earlier
/// at the end of the document or an error, so only the events up to the first
/// of these count.
pub open spec fn document_events(text: Seq<char>, budget: nat) -> Seq<XmlEventView> {
    Seq::new(budget + 1, |k: int| quick_xml_event(text, k as nat)).push(
        XmlEventView::Error(READER_STALLED_MESSAGE@),
    )
}

/// The event ends the reading.
pub open spec fn stops(e: XmlEventView) -> bool {
    e is Eof || e is Error
}

/// The events of `xml`, read until the end of the document or the first
/// error: a prefix of `document_events` that ends at the first event that
/// stops the reading. `quick_xml` consumes input with every event before the
/// end, so at most one event per byte (and the end) is read; should the
/// reader yield more, the report that it stalled ends the events.
pub fn read_xml_events(xml: &str) -> (r: Vec<XmlEvent>)
    ensures
        0 < r@.len() <= document_events(xml@, xml.len() as nat).len(),
        stops(r@.last()@),
        forall|k: int| 0 <= k < r@.len() ==> (#[trigger] r@[k])@ == document_events(xml@, xml.len() as nat)[k],
        forall|k: int| 0 <= k < r@.len() - 1 ==> !stops((#[trigger] r@[k])@),
{
    let mut reader = xml_reader(xml);
    let mut events: Vec<XmlEvent> = Vec::new();
    let budget = xml.len();
    let ghost doc = document_events(xml@, budget as nat);
    let mut n: usize = 0;
    while n <= budget
        invariant
            budget == xml.len(),
            doc == document_events(xml@, budget as nat),
            events@.len() == n,
            n <= budget,
            reader.text() == xml@,
            reader.read() == n,
            forall|k: int| 0 <= k < events@.len() ==> (#[trigger] events@[k])@ == doc[k],
            forall|k: int| 0 <= k < events@.len() ==> !stops((#[trigger] events@[k])@),
        decreases budget + 1 - n,
    {
        let event = next_xml_event(&mut reader);
        assert(event@ == doc[n as int]);
        let stop = match &event {
            XmlEvent::Eof => true,
            XmlEvent::Error(_) => true,
            _ => false,
        };
        events.push(event);
        if stop {
            return events;
        }
        if n == budget {
            let message = to_owned(READER_STALLED_MESSAGE);
            events.push(XmlEvent::Error(message));
            assert(events@.len() == doc.len());
            return events;
        }
        n += 1;
    }
    events
}

/// The entries of a WebDAV multistatus document: what
/// `entries_from_xml_events` makes of the events that `quick_xml` reads from
/// it.
pub fn parse_webdav_multistatus(xml: &str) -> (r: Result<Vec<WebDavEntry>, String>)
    ensures
        entries_result_matches(r, document_events(xml@, xml.len() as nat)),
{
    let events = read_xml_events(xml);
    let r = entries_from_xml_events(&events);
    proof {
        let doc = document_events(xml@, xml.len() as nat);
        let views = event_views(events@);
        assert forall|k: int| 0 <= k < views.len() implies views[k] == doc[k] && (k < views.len() - 1 ==> !stops(views[k])) by {
            assert(views[k] == events@[k]@);
        }
        assert(views.last() == events@.last()@);
        lemma_entries_stop_at_first_stop(views, doc, 0, seq![], None, seq![]);
    }
    r
}

/// Events past the first that stops the reading do not change the entries.
proof fn lemma_entries_stop_at_first_stop(
    read: Seq<XmlEventView>,
    all: Seq<XmlEventView>,
    i: int,
    done: Seq<(Seq<char>, Seq<char>, u64, Seq<char>, Seq<char>, Seq<char>, bool)>,
    current: Option<(Seq<char>, Seq<char>, u64, Seq<char>, Seq<char>, Seq<char>, bool)>,
    active: Seq<char>,
)
    requires
        0 <= i < read.len() <= all.len(),
        stops(read.last()),
        forall|k: int| 0 <= k < read.len() ==> read[k] == all[k],
        forall|k: int| 0 <= k < read.len() - 1 ==> !stops(read[k]),
    ensures
        entries_from(read, i, done, current, active) == entries_from(all, i, done, current, active),
    decreases read.len() - i,
{
    assert(read[i] == all[i]);
    if i < read.len() - 1 {
        assert(!stops(read[i]));
        match read[i] {
            XmlEventView::Start(name) => {
                let n = local_name(name);
                let c = current->0;
                lemma_entries_stop_at_first_stop(read, all, i + 1, done, Some(empty_entry()), active);
                lemma_entries_stop_at_first_stop(read, all, i + 1, done, current, n);
                lemma_entries_stop_at_first_stop(read, all, i + 1, done, Some((c.0, c.1, c.2, c.3, c.4, c.5, true)), active);
                lemma_entries_stop_at_first_stop(read, all, i + 1, done, current, active);
            },
            XmlEventView::Text(content) => {
                let text = trim_seq(content);
                lemma_entries_stop_at_first_stop(read, all, i + 1, done, current, active);
                if current is Some {
                    lemma_entries_stop_at_first_stop(read, all, i + 1, done, Some(with_field(current->0, active, text)), active);
                }
            },
            XmlEventView::End(name) => {
                if current is Some {
                    lemma_entries_stop_at_first_stop(read, all, i + 1, done.push(current->0), None, seq![]);
                }
                lemma_entries_stop_at_first_stop(read, all, i + 1, done, None, seq![]);
                lemma_entries_stop_at_first_stop(read, all, i + 1, done, current, seq![]);
            },
            _ => {
                lemma_entries_stop_at_first_stop(read, all, i + 1, done, current, active);
            },
        }
    }
}

} // verus!
