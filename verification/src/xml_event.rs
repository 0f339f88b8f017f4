//! The XML events the parser works on, read from the document by `quick_xml`.
use vstd::prelude::*;
use quick_xml::events::Event;
use quick_xml::Reader;
use crate::text::bytes_to_string;
use vstd::slice::slice_to_vec;
use vstd::utf8::{decode_utf8, valid_utf8};

verus! {

/// The `quick_xml::Reader` over the text of the document, opaque.
#[verifier::external_body]
pub struct XmlReader<'a> {
    reader: Reader<&'a [u8]>,
}

/// The document being read: the reader, the document's text, how many events have been
/// read, and whether empty elements are expanded and text trimmed.
pub struct XmlSource<'a> {
    reader: XmlReader<'a>,
    doc: Ghost<Seq<char>>,
    pos: Ghost<nat>,
    expanded: Ghost<bool>,
    trimmed: Ghost<bool>,
}

impl<'a> XmlSource<'a> {
    /// The text of the document.
    pub closed spec fn doc(&self) -> Seq<char> {
        self.doc@
    }

    /// How many events have been read.
    pub closed spec fn pos(&self) -> nat {
        self.pos@
    }

    /// Empty elements are read as a start and an end tag.
    pub closed spec fn expands(&self) -> bool {
        self.expanded@
    }

    /// Text is trimmed.
    pub closed spec fn trims(&self) -> bool {
        self.trimmed@
    }

    /// Empty elements are read as a start and an end tag, and text is trimmed.
    pub open spec fn configured(&self) -> bool {
        self.expands() && self.trims()
    }
}

/// One attribute of a start tag: its name and its raw (still escaped) value.
pub struct XmlAttribute {
    pub key: Vec<u8>,
    pub value: Vec<u8>,
}

/// A start tag: its name and the attributes that could be read.
pub struct StartTag {
    pub name: Vec<u8>,
    pub attributes: Vec<XmlAttribute>,
}

/// What reading the document gives next. `Text` holds the unescaped text, or `None` when it
/// could not be unescaped or decoded.
pub enum XmlEvent {
    Start(StartTag),
    End,
    Text(Option<String>),
    Eof,
    Error(String),
    Other,
}

/// The attributes of a start tag as (name, value) pairs.
pub open spec fn attributes_view(t: StartTag) -> Seq<(Seq<u8>, Seq<u8>)> {
    t.attributes@.map_values(|a: XmlAttribute| (a.key@, a.value@))
}

/// An event of the document as plain values: a start tag's name and its attributes (each
/// as (name, raw value), or `None` where it could not be read), the raw bytes of a text, the
/// message of an error.
pub enum XmlEventView {
    Start(Seq<u8>, Seq<Option<(Seq<u8>, Seq<u8>)>>),
    End,
    Text(Seq<u8>),
    Eof,
    Error(Seq<char>),
    Other,
}

/// The event that `quick_xml` gives as the `i`-th of the document `doc` (counting from 0),
/// read with empty elements expanded and text trimmed; after the end of the document, `Eof`.
pub uninterp spec fn xml_event_at(doc: Seq<char>, i: nat) -> XmlEventView;

/// The event as `quick_xml` gives it, with the variants that the parser tells apart: a
/// start tag's name and attributes, a text's raw (still escaped) bytes, an error's text.
pub enum RawEvent {
    Start(Vec<u8>, Vec<Option<(Vec<u8>, Vec<u8>)>>),
    End,
    Text(Vec<u8>),
    Eof,
    Error(String),
    Other,
}

/// The plain values of a raw event.
pub open spec fn raw_view(e: RawEvent) -> XmlEventView {
    match e {
        RawEvent::Start(n, a) => XmlEventView::Start(n@, raw_attributes_view(a@)),
        RawEvent::End => XmlEventView::End,
        RawEvent::Text(t) => XmlEventView::Text(t@),
        RawEvent::Eof => XmlEventView::Eof,
        RawEvent::Error(m) => XmlEventView::Error(m@),
        RawEvent::Other => XmlEventView::Other,
    }
}

/// `quick_xml::Reader::from_str`: a reader at the start of the document `s`, not yet
/// configured.
#[verifier::external_body]
pub(crate) fn reader_from_str<'a>(s: &'a str) -> (r: XmlSource<'a>)
    ensures
        r.doc() == s@,
        r.pos() == 0,
        !r.expands() && !r.trims(),
{
    XmlSource {
        reader: XmlReader { reader: Reader::from_str(s) },
        doc: Ghost(s@),
        pos: Ghost(0),
        expanded: Ghost(false),
        trimmed: Ghost(false),
    }
}

/// `quick_xml::Reader::expand_empty_elements(true)`: `<a/>` is then read as a start and an
/// end tag. Configured before the first read, as `xml_event_at` counts events; the document
/// and the position stay.
#[verifier::external_body]
pub(crate) fn reader_expand_empty_elements(r: &mut XmlSource)
    requires
        old(r).pos() == 0,
    ensures
        final(r).doc() == old(r).doc(),
        final(r).pos() == old(r).pos(),
        final(r).expands(),
        final(r).trims() == old(r).trims(),
{
    r.reader.reader.expand_empty_elements(true);
}

/// `quick_xml::Reader::trim_text(true)`: white space around text is dropped and blank text
/// is skipped. Configured before the first read, as `xml_event_at` counts events; the
/// document and the position stay.
#[verifier::external_body]
pub(crate) fn reader_trim_text(r: &mut XmlSource)
    requires
        old(r).pos() == 0,
    ensures
        final(r).doc() == old(r).doc(),
        final(r).pos() == old(r).pos(),
        final(r).trims(),
        final(r).expands() == old(r).expands(),
{
    r.reader.reader.trim_text(true);
}

/// `quick_xml::Reader::read_event`, with the start tag's name (`BytesStart::name`) and
/// attributes (`BytesStart::attributes`), the text's raw bytes (`BytesText::escaped`) and
/// the error's text taken out: on a configured reader, the event at the reader's position
/// in the document, named by `xml_event_at`; the position moves on by one.
#[verifier::external_body]
pub(crate) fn reader_read_event(r: &mut XmlSource, buf: &mut Vec<u8>) -> (e: RawEvent)
    ensures
        final(r).doc() == old(r).doc(),
        final(r).pos() == old(r).pos() + 1,
        final(r).configured() == old(r).configured(),
        old(r).configured() ==> raw_view(e) == xml_event_at(old(r).doc(), old(r).pos()),
{
    match r.reader.reader.read_event(buf) {
        Ok(Event::Start(e)) => RawEvent::Start(e.name().to_vec(), e.attributes().map(|a| a.ok().map(|x| (x.key.to_vec(), x.value.into_owned()))).collect()),
        Ok(Event::End(_)) => RawEvent::End,
        Ok(Event::Text(e)) => RawEvent::Text(e.escaped().to_vec()),
        Ok(Event::Eof) => RawEvent::Eof,
        Ok(_) => RawEvent::Other,
        Err(e) => RawEvent::Error(format!("{}", e)),
    }
}

/// What `quick_xml::escape::unescape` gives for `raw`: the bytes with each entity (`&lt;`,
/// `&#65;`, ...) replaced, or `None` for a malformed or unknown entity.
pub uninterp spec fn xml_unescaped(raw: Seq<u8>) -> Option<Seq<u8>>;

/// The text of a raw text event as `quick_xml` unescapes and decodes it for a UTF-8
/// document: the raw bytes must be UTF-8, their entities known, and the unescaped bytes
/// UTF-8 again.
pub open spec fn spec_text(raw: Seq<u8>) -> Option<Seq<char>> {
    if !valid_utf8(raw) {
        None
    } else {
        match xml_unescaped(raw) {
            Some(u) => if valid_utf8(u) {
                Some(decode_utf8(u))
            } else {
                None
            },
            None => None,
        }
    }
}

/// `quick_xml::escape::unescape`: the result is named by `xml_unescaped`; bytes without
/// `&` come back unchanged, as the source's loop over `&` positions never runs for them.
#[verifier::external_body]
pub(crate) fn xml_unescape(raw: &[u8]) -> (r: Option<Vec<u8>>)
    ensures
        r is Some <==> xml_unescaped(raw@) is Some,
        r matches Some(v) ==> xml_unescaped(raw@) == Some(v@),
        !raw@.contains(38u8) ==> r is Some && r->0@ == raw@,
{
    quick_xml::escape::unescape(raw).ok().map(|c| c.into_owned())
}

/// Unescapes and decodes the raw bytes of a text event, as `BytesText::unescape_and_decode`
/// does for a UTF-8 document: `None` where the bytes are not UTF-8 or hold an entity that
/// cannot be replaced.
pub fn unescape_and_decode(raw: &[u8]) -> (t: Option<String>)
    ensures
        match t {
            Some(s) => spec_text(raw@) == Some(s@),
            None => spec_text(raw@) is None,
        },
{
    if bytes_to_string(slice_to_vec(raw)).is_none() {
        return None;
    }
    match xml_unescape(raw) {
        Some(u) => bytes_to_string(u),
        None => None,
    }
}

/// The attributes that could be read, in document order: the entries that are `Some`.
pub open spec fn read_attributes(raw: Seq<Option<(Seq<u8>, Seq<u8>)>>) -> Seq<(Seq<u8>, Seq<u8>)>
    decreases raw.len(),
{
    if raw.len() == 0 {
        Seq::empty()
    } else {
        let rest = read_attributes(raw.drop_last());
        match raw.last() {
            Some(a) => rest.push(a),
            None => rest,
        }
    }
}

/// The attribute list of a start tag as plain values.
pub open spec fn raw_attributes_view(a: Seq<Option<(Vec<u8>, Vec<u8>)>>) -> Seq<Option<(Seq<u8>, Seq<u8>)>> {
    a.map_values(|x: Option<(Vec<u8>, Vec<u8>)>| match x {
        Some(p) => Some((p.0@, p.1@)),
        None => None,
    })
}

/// `e` is the event that the plain event `v` of the document gives.
pub open spec fn event_of(v: XmlEventView, e: XmlEvent) -> bool {
    match v {
        XmlEventView::Start(n, a) => e matches XmlEvent::Start(t) && t.name@ == n && attributes_view(t)
            == read_attributes(a),
        XmlEventView::End => e is End,
        XmlEventView::Text(raw) => e matches XmlEvent::Text(t) && text_from_raw(raw, t),
        XmlEventView::Eof => e is Eof,
        XmlEventView::Error(m) => e matches XmlEvent::Error(x) && x@ == m,
        XmlEventView::Other => e is Other,
    }
}

/// The text of a text event: what unescaping and decoding the raw bytes `raw` gives.
pub open spec fn text_from_raw(raw: Seq<u8>, t: Option<String>) -> bool {
    match t {
        Some(s) => spec_text(raw) == Some(s@),
        None => spec_text(raw) is None,
    }
}

/// A start tag named `name`, with the attributes of `raw` that could be read (the `Some`
/// entries), in document order.
pub(crate) fn start_tag_of(name: Vec<u8>, raw: Vec<Option<(Vec<u8>, Vec<u8>)>>) -> (t: StartTag)
    ensures
        t.name@ == name@,
        attributes_view(t) == read_attributes(raw_attributes_view(raw@)),
{
    let mut attributes: Vec<XmlAttribute> = Vec::new();
    let mut i: usize = 0;
    while i < raw.len()
        invariant
            i <= raw.len(),
            attributes@.map_values(|a: XmlAttribute| (a.key@, a.value@)) == read_attributes(
                raw_attributes_view(raw@.take(i as int)),
            ),
        decreases raw.len() - i,
    {
        proof {
            assert(raw_attributes_view(raw@.take(i + 1)).drop_last() =~= raw_attributes_view(raw@.take(i as int)));
            assert(raw_attributes_view(raw@.take(i + 1)).last() == raw_attributes_view(raw@)[i as int]);
        }
        let ghost before = attributes@;
        match &raw[i] {
            Some((key, value)) => {
                let k = slice_to_vec(key.as_slice());
                let v = slice_to_vec(value.as_slice());
                attributes.push(XmlAttribute { key: k, value: v });
                assert(attributes@.map_values(|a: XmlAttribute| (a.key@, a.value@)) =~= before.map_values(
                    |a: XmlAttribute| (a.key@, a.value@),
                ).push((key@, value@)));
            },
            None => {},
        }
        i = i + 1;
    }
    assert(raw@.take(raw.len() as int) =~= raw@);
    StartTag { name, attributes }
}

/// Reads the next event of the document: on a configured reader, the event at the reader's
/// position, which moves on by one; the text of a text event is what unescaping and
/// decoding its raw bytes gives.
pub(crate) fn next_event(r: &mut XmlSource) -> (e: XmlEvent)
    ensures
        final(r).doc() == old(r).doc(),
        final(r).pos() == old(r).pos() + 1,
        final(r).configured() == old(r).configured(),
        old(r).configured() ==> event_of(xml_event_at(old(r).doc(), old(r).pos()), e),
        e matches XmlEvent::Text(t) ==> exists|raw: Seq<u8>| #[trigger] text_from_raw(raw, t),
{
    let mut buf: Vec<u8> = Vec::new();
    let raw = reader_read_event(r, &mut buf);
    match raw {
        RawEvent::Start(name, attrs) => XmlEvent::Start(start_tag_of(name, attrs)),
        RawEvent::End => XmlEvent::End,
        RawEvent::Text(raw) => {
            let t = unescape_and_decode(raw.as_slice());
            assert(text_from_raw(raw@, t));
            XmlEvent::Text(t)
        },
        RawEvent::Eof => XmlEvent::Eof,
        RawEvent::Error(s) => XmlEvent::Error(s),
        RawEvent::Other => XmlEvent::Other,
    }
}

} // verus!
