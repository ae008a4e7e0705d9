//! Reading XML documents element by element.
//!
//! An [`XmlStream`] hands out the events of a document one at a time, or the
//! raw text of an element up to its end tag. Each of these steps is recorded
//! in the stream's trace, an observation per step, and each observation is
//! the XML reader's reply to the stream's document given the requests made
//! before it. A parser is specified by a spec function from observations to
//! its result and the number of observations it consumed: whatever the
//! document holds, the value a parser returns is the one its spec function
//! gives on the observations the parser made, and nothing that follows them
//! changes it.

use crate::text::{bytes_equal, NumberError};
use quick_xml::events::{BytesStart, Event};
use quick_xml::name::QName;
use quick_xml::Reader;
use std::io::Cursor;
use vstd::prelude::*;
use vstd::string::StringSliceAdditionalSpecFns;

verus! {

#[verifier::external_type_specification]
#[verifier::external_body]
#[verifier::reject_recursive_types(R)]
pub struct ExReader<R>(Reader<R>);

#[verifier::external_type_specification]
#[verifier::external_body]
#[verifier::reject_recursive_types(T)]
pub struct ExCursor<T>(Cursor<T>);

#[verifier::external_type_specification]
#[verifier::external_body]
pub struct ExXmlError(quick_xml::Error);

/// An attribute of a start tag, as written: its key and its raw value.
#[derive(Debug, Clone, PartialEq, Eq)]
pub struct XmlAttribute {
    pub key: Vec<u8>,
    pub value: Vec<u8>,
}

/// A start tag: its name and its attributes in order, `None` standing for
/// an attribute that could not be read.
#[derive(Debug, Clone, PartialEq, Eq)]
pub struct XmlTag {
    pub name: Vec<u8>,
    pub attributes: Vec<Option<XmlAttribute>>,
}

/// An event of an XML document.
#[derive(Debug, Clone, PartialEq, Eq)]
pub enum XmlEvent {
    /// `<name ...>`
    Start(XmlTag),
    /// `<name .../>`
    Empty(XmlTag),
    /// `</name>`
    End(Vec<u8>),
    /// Character data, as written.
    Text(Vec<u8>),
    /// The end of the document.
    Eof,
    /// Any other event: comment, CDATA, declaration, processing
    /// instruction, doctype, entity reference.
    Other,
}

/// Why reading a document failed.
#[derive(Debug)]
pub enum ParseError {
    /// The XML reader refused the document.
    Xml(quick_xml::Error),
    /// The document ended inside an element that was being read.
    UnexpectedEof,
    /// The document yielded more steps than it has bytes.
    Exhausted,
    /// A required attribute is missing; the message names it.
    MissingAttribute(&'static str),
    /// A number could not be read.
    InvalidNumber(NumberError),
}

/// One step of reading a document: an event, or the raw text of an element
/// up to the end tag with the given name.
pub enum Obs {
    Event(Result<XmlEvent, ParseError>),
    Text(Seq<u8>, Result<Seq<u8>, ParseError>),
}

/// A request made of an XML reader: a setting of whether text is trimmed,
/// a read of the next event, or a read of raw text up to the end tag with
/// the given name.
pub enum XmlRequest {
    Trim(bool),
    Event,
    Text(Seq<u8>),
}

// ---------------------------------------------------------------------------
// Calls into quick_xml and std
// ---------------------------------------------------------------------------

/// The bytes of the document that a reader reads.
pub uninterp spec fn reader_input(reader: Reader<Cursor<Vec<u8>>>) -> Seq<u8>;

/// The requests made of a reader since it was created, in order.
pub uninterp spec fn reader_requests(reader: Reader<Cursor<Vec<u8>>>) -> Seq<XmlRequest>;

/// What `Reader::read_event_into` gives on a reader over `input` after
/// `requests`.
pub uninterp spec fn event_reply(input: Seq<u8>, requests: Seq<XmlRequest>) -> Result<XmlEvent, quick_xml::Error>;

/// What `Reader::read_text_into` gives for the end tag `end` on a reader
/// over `input` after `requests`.
pub uninterp spec fn text_reply(input: Seq<u8>, requests: Seq<XmlRequest>, end: Seq<u8>) -> Result<Seq<u8>, quick_xml::Error>;

pub open spec fn bytes_result<E>(r: Result<Vec<u8>, E>) -> Result<Seq<u8>, E> {
    match r {
        Ok(v) => Ok(v@),
        Err(e) => Err(e),
    }
}

/// `quick_xml::Reader::from_reader` over an in-memory cursor on `data`: a
/// reader of `data` of which nothing has been requested yet.
#[verifier::external_body]
fn reader_from_bytes(data: Vec<u8>) -> (reader: Reader<Cursor<Vec<u8>>>)
    ensures
        reader_input(reader) == data@,
        reader_requests(reader) == Seq::<XmlRequest>::empty(),
{
    Reader::from_reader(Cursor::new(data))
}

/// `quick_xml::Reader::config_mut().trim_text(trim)`: whether whitespace
/// around text is dropped from the events that follow. The setting is
/// recorded as a request; the document is unchanged.
#[verifier::external_body]
fn set_trim_text(reader: &mut Reader<Cursor<Vec<u8>>>, trim: bool)
    ensures
        reader_input(*final(reader)) == reader_input(*old(reader)),
        reader_requests(*final(reader)) == reader_requests(*old(reader)).push(XmlRequest::Trim(trim)),
{
    reader.config_mut().trim_text(trim);
}

/// `quick_xml::Reader::read_event_into`, with the event copied out of it:
/// `BytesStart::name` and `BytesStart::attributes` of a start or empty tag
/// (each attribute that could not be read becomes `None`), `BytesEnd::name`,
/// and the bytes of a text event. The reply is named by `event_reply`: the
/// reader works on the bytes of its document alone, so the same document
/// and the same requests give the same reply. Which event that is, is not
/// stated here.
#[verifier::external_body]
fn read_raw_event(reader: &mut Reader<Cursor<Vec<u8>>>) -> (res: Result<XmlEvent, quick_xml::Error>)
    ensures
        res == event_reply(reader_input(*old(reader)), reader_requests(*old(reader))),
        reader_input(*final(reader)) == reader_input(*old(reader)),
        reader_requests(*final(reader)) == reader_requests(*old(reader)).push(XmlRequest::Event),
{
    let tag = |e: BytesStart| XmlTag { name: e.name().0.to_vec(), attributes: e.attributes().map(
        |a| a.ok().map(|a| XmlAttribute { key: a.key.0.to_vec(), value: a.value.to_vec() })).collect() };
    Ok(match reader.read_event_into(&mut Vec::new())? {
        Event::Start(e) => XmlEvent::Start(tag(e)),
        Event::Empty(e) => XmlEvent::Empty(tag(e)),
        Event::End(e) => XmlEvent::End(e.name().0.to_vec()),
        Event::Text(e) => XmlEvent::Text(e.to_vec()),
        Event::Eof => XmlEvent::Eof,
        _ => XmlEvent::Other,
    })
}

/// `quick_xml::Reader::read_text_into`: the raw content up to the end tag
/// named `end`, as written (nested markup included). The reply is named by
/// `text_reply`, as for `read_raw_event`; which bytes it holds is not stated
/// here.
#[verifier::external_body]
fn read_raw_text(reader: &mut Reader<Cursor<Vec<u8>>>, end: &[u8]) -> (res: Result<Vec<u8>, quick_xml::Error>)
    ensures
        bytes_result(res) == text_reply(reader_input(*old(reader)), reader_requests(*old(reader)), end@),
        reader_input(*final(reader)) == reader_input(*old(reader)),
        reader_requests(*final(reader)) == reader_requests(*old(reader)).push(XmlRequest::Text(end@)),
{
    Ok(reader.read_text_into(QName(end), &mut Vec::new())?.to_vec())
}

/// What `String::from_utf8_lossy` gives for `bytes`: the text they encode,
/// each invalid sequence replaced by U+FFFD.
pub uninterp spec fn utf8_lossy(bytes: Seq<u8>) -> Seq<char>;

/// `String::from_utf8_lossy(bytes).to_string()`. Its result is named by
/// `utf8_lossy`; on valid UTF-8 it is the decoded text, as std documents.
#[verifier::external_body]
pub(crate) fn from_utf8_lossy(bytes: &[u8]) -> (text: String)
    ensures
        text@ == utf8_lossy(bytes@),
        vstd::utf8::valid_utf8(bytes@) ==> text@ == vstd::utf8::decode_utf8(bytes@),
{
    String::from_utf8_lossy(bytes).to_string()
}

// ---------------------------------------------------------------------------
// Attributes
// ---------------------------------------------------------------------------

/// The raw value of the first readable attribute of `attributes` whose key
/// is `key`.
pub open spec fn attribute_bytes(attributes: Seq<Option<XmlAttribute>>, key: Seq<u8>) -> Option<Seq<u8>>
    decreases attributes.len(),
{
    if attributes.len() == 0 {
        None
    } else {
        match attributes[0] {
            Some(a) => if a.key@ == key {
                Some(a.value@)
            } else {
                attribute_bytes(attributes.drop_first(), key)
            },
            None => attribute_bytes(attributes.drop_first(), key),
        }
    }
}

/// The bytes of a string of ASCII characters are its characters.
pub proof fn lemma_ascii_bytes(s: &str)
    requires
        vstd::utf8::is_ascii_chars(s@),
    ensures
        s.spec_bytes().len() == s@.len(),
        forall|i: int| 0 <= i < s@.len() ==> #[trigger] s.spec_bytes()[i] == s@[i] as u8,
{
    vstd::utf8::is_ascii_chars_encode_utf8(s@);
}

/// `true` when `attributes[i]` is a readable attribute with key `key`.
pub open spec fn has_key_at(attributes: Seq<Option<XmlAttribute>>, key: Seq<u8>, i: int) -> bool {
    &&& 0 <= i < attributes.len()
    &&& attributes[i] matches Some(a) && a.key@ == key
}

/// An attribute is found exactly when some readable attribute has the key,
/// and what is found is the value of the first of them; unreadable
/// attributes are passed over.
pub proof fn lemma_attribute_first_match(attributes: Seq<Option<XmlAttribute>>, key: Seq<u8>)
    ensures
        attribute_bytes(attributes, key) is Some <==> exists|i: int| has_key_at(attributes, key, i),
        forall|i: int| #[trigger] has_key_at(attributes, key, i)
            && (forall|j: int| 0 <= j < i ==> !has_key_at(attributes, key, j))
            ==> attribute_bytes(attributes, key) == Some(attributes[i]->Some_0.value@),
    decreases attributes.len(),
{
    if attributes.len() > 0 {
        let rest = attributes.drop_first();
        lemma_attribute_first_match(rest, key);
        assert forall|i: int| has_key_at(rest, key, i) implies has_key_at(attributes, key, i + 1) by {
            assert(attributes[i + 1] == rest[i]);
        }
        assert forall|i: int| i > 0 && has_key_at(attributes, key, i) implies has_key_at(rest, key, i - 1) by {
            assert(attributes[i] == rest[i - 1]);
        }
        if exists|i: int| has_key_at(attributes, key, i) {
            let i = choose|i: int| has_key_at(attributes, key, i);
            if !has_key_at(attributes, key, 0) {
                assert(has_key_at(rest, key, i - 1));
            }
        }
        if !has_key_at(attributes, key, 0) && exists|i: int| has_key_at(rest, key, i) {
            let i = choose|i: int| has_key_at(rest, key, i);
            assert(has_key_at(attributes, key, i + 1));
        }
        assert forall|i: int| #[trigger] has_key_at(attributes, key, i)
            && (forall|j: int| 0 <= j < i ==> !has_key_at(attributes, key, j))
            implies attribute_bytes(attributes, key) == Some(attributes[i]->Some_0.value@) by {
            if i > 0 {
                assert(!has_key_at(attributes, key, 0));
                assert(has_key_at(rest, key, i - 1));
                assert forall|j: int| 0 <= j < i - 1 implies !has_key_at(rest, key, j) by {
                    if has_key_at(rest, key, j) {
                        assert(has_key_at(attributes, key, j + 1));
                    }
                }
                assert(rest[i - 1] == attributes[i]);
            }
        }
    }
}

/// The value of attribute `key` of `e`, decoded as `String::from_utf8_lossy` does.
pub open spec fn spec_get_attribute(e: XmlTag, key: Seq<u8>) -> Option<Seq<char>> {
    match attribute_bytes(e.attributes@, key) {
        Some(v) => Some(utf8_lossy(v)),
        None => None,
    }
}

/// `true` when `e` has a readable attribute `key`.
pub open spec fn has_attribute(e: XmlTag, key: Seq<u8>) -> bool {
    attribute_bytes(e.attributes@, key) is Some
}

pub open spec fn option_view(o: Option<String>) -> Option<Seq<char>> {
    match o {
        Some(s) => Some(s@),
        None => None,
    }
}

/// The value of the attribute `key` of the start tag `e`: the first
/// readable attribute with that key, its raw value decoded lossily.
pub fn get_attribute(e: &XmlTag, key: &[u8]) -> (res: Option<String>)
    ensures
        option_view(res) == spec_get_attribute(*e, key@),
{
    let mut i: usize = 0;
    assert(e.attributes@.skip(0) =~= e.attributes@);
    while i < e.attributes.len()
        invariant
            i <= e.attributes@.len(),
            attribute_bytes(e.attributes@, key@) == attribute_bytes(e.attributes@.skip(i as int), key@),
        decreases e.attributes.len() - i,
    {
        let ghost rest = e.attributes@.skip(i as int);
        assert(rest.drop_first() =~= e.attributes@.skip(i as int + 1));
        assert(rest[0] == e.attributes@[i as int]);
        if let Some(a) = &e.attributes[i] {
            if bytes_equal(a.key.as_slice(), key) {
                return Some(from_utf8_lossy(a.value.as_slice()));
            }
        }
        i += 1;
    }
    None
}

// ---------------------------------------------------------------------------
// The stream
// ---------------------------------------------------------------------------

/// The steps that the requests made of a reader over `input` record: a read
/// of an event or of text records the reader's reply to it; a setting
/// records nothing.
pub open spec fn replayed(input: Seq<u8>, requests: Seq<XmlRequest>) -> Seq<Obs>
    decreases requests.len(),
{
    if requests.len() == 0 {
        Seq::empty()
    } else {
        let before = requests.drop_last();
        match requests.last() {
            XmlRequest::Trim(_) => replayed(input, before),
            XmlRequest::Event => replayed(input, before).push(Obs::Event(event_result(event_reply(input, before)))),
            XmlRequest::Text(end) => replayed(input, before).push(
                Obs::Text(end, text_result(text_reply(input, before, end))),
            ),
        }
    }
}

/// An XML document being read.
///
/// Each step costs one unit of a budget of one more than the document's
/// length in bytes; a step taken with no budget left fails with
/// [`ParseError::Exhausted`] and makes no request of the reader. Every read
/// of the reader advances it, so the budget only bounds the number of steps
/// that reading a document can take.
pub struct XmlStream {
    reader: Reader<Cursor<Vec<u8>>>,
    budget: usize,
    /// The steps refused since the budget ran out.
    refused: Ghost<Seq<Obs>>,
}

/// What a read of the next event gives, as the stream hands it out.
pub open spec fn event_result(r: Result<XmlEvent, quick_xml::Error>) -> Result<XmlEvent, ParseError> {
    match r {
        Ok(ev) => Ok(ev),
        Err(e) => Err(ParseError::Xml(e)),
    }
}

/// What a read of raw text gives, as the stream hands it out.
pub open spec fn text_result(r: Result<Seq<u8>, quick_xml::Error>) -> Result<Seq<u8>, ParseError> {
    match r {
        Ok(t) => Ok(t),
        Err(e) => Err(ParseError::Xml(e)),
    }
}

impl XmlStream {
    /// The steps taken on the stream so far.
    pub closed spec fn trace(&self) -> Seq<Obs> {
        if self.budget == 0 {
            replayed(self.input(), self.requests()) + self.refused@
        } else {
            replayed(self.input(), self.requests())
        }
    }

    /// The steps that the stream can still take.
    pub closed spec fn budget(&self) -> nat {
        self.budget as nat
    }

    /// The document being read.
    pub closed spec fn input(&self) -> Seq<u8> {
        reader_input(self.reader)
    }

    /// The requests made of the reader so far.
    pub closed spec fn requests(&self) -> Seq<XmlRequest> {
        reader_requests(self.reader)
    }

    /// A stream over the document `data`; with `trim_text`, whitespace around
    /// text is dropped and whitespace-only text yields no event.
    pub fn from_bytes(data: Vec<u8>, trim_text: bool) -> (stream: Self)
        ensures
            stream.trace() == Seq::<Obs>::empty(),
            stream.budget() == if data@.len() < usize::MAX { data@.len() + 1 } else { data@.len() },
            stream.input() == data@,
            stream.requests() == seq![XmlRequest::Trim(trim_text)],
    {
        let len = data.len();
        let budget = if len < usize::MAX {
            len + 1
        } else {
            len
        };
        let mut reader = reader_from_bytes(data);
        set_trim_text(&mut reader, trim_text);
        assert(reader_requests(reader) =~= seq![XmlRequest::Trim(trim_text)]);
        assert(reader_requests(reader).drop_last() =~= Seq::<XmlRequest>::empty());
        assert(replayed(reader_input(reader), reader_requests(reader)) =~= Seq::<Obs>::empty()) by {
            reveal_with_fuel(replayed, 2);
        }
        XmlStream { reader, budget, refused: Ghost(Seq::empty()) }
    }

    /// The next event of the document: the reader's reply, while the budget
    /// lasts.
    pub fn next_event(&mut self) -> (res: Result<XmlEvent, ParseError>)
        ensures
            final(self).trace() == old(self).trace().push(Obs::Event(res)),
            final(self).input() == old(self).input(),
            old(self).budget() == 0 ==> {
                &&& final(self).budget() == 0
                &&& final(self).requests() == old(self).requests()
                &&& res matches Err(ParseError::Exhausted)
            },
            old(self).budget() > 0 ==> {
                &&& final(self).budget() == old(self).budget() - 1
                &&& final(self).requests() == old(self).requests().push(XmlRequest::Event)
                &&& res == event_result(event_reply(old(self).input(), old(self).requests()))
            },
    {
        if self.budget == 0 {
            let res = Err(ParseError::Exhausted);
            self.refused = Ghost(self.refused@.push(Obs::Event(res)));
            proof {
                let done = replayed(self.input(), self.requests());
                assert(done + self.refused@ =~= (done + old(self).refused@).push(Obs::Event(res)));
            }
            return res;
        }
        let ghost before = self.requests();
        self.budget = self.budget - 1;
        let res = match read_raw_event(&mut self.reader) {
            Ok(event) => Ok(event),
            Err(e) => Err(ParseError::Xml(e)),
        };
        self.refused = Ghost(Seq::empty());
        proof {
            assert(self.requests().drop_last() =~= before);
            let done = replayed(self.input(), self.requests());
            assert(done + self.refused@ =~= done);
        }
        res
    }

    /// The raw content of the element being read, up to its end tag `end`:
    /// the reader's reply, while the budget lasts.
    pub fn next_text(&mut self, end: &[u8]) -> (res: Result<Vec<u8>, ParseError>)
        ensures
            final(self).trace() == old(self).trace().push(Obs::Text(end@, bytes_result(res))),
            final(self).input() == old(self).input(),
            old(self).budget() == 0 ==> {
                &&& final(self).budget() == 0
                &&& final(self).requests() == old(self).requests()
                &&& res matches Err(ParseError::Exhausted)
            },
            old(self).budget() > 0 ==> {
                &&& final(self).budget() == old(self).budget() - 1
                &&& final(self).requests() == old(self).requests().push(XmlRequest::Text(end@))
                &&& bytes_result(res) == text_result(text_reply(old(self).input(), old(self).requests(), end@))
            },
    {
        if self.budget == 0 {
            let res = Err(ParseError::Exhausted);
            self.refused = Ghost(self.refused@.push(Obs::Text(end@, bytes_result(res))));
            proof {
                let done = replayed(self.input(), self.requests());
                assert(done + self.refused@ =~= (done + old(self).refused@).push(Obs::Text(end@, bytes_result(res))));
            }
            return res;
        }
        let ghost before = self.requests();
        self.budget = self.budget - 1;
        let res = match read_raw_text(&mut self.reader, end) {
            Ok(text) => Ok(text),
            Err(e) => Err(ParseError::Xml(e)),
        };
        self.refused = Ghost(Seq::empty());
        proof {
            assert(self.requests().drop_last() =~= before);
            let done = replayed(self.input(), self.requests());
            assert(done + self.refused@ =~= done);
        }
        res
    }
}

/// Every step that a stream has taken records the XML reader's reply to the
/// stream's document, given the requests made before it; once the budget
/// has run out, the refused steps follow them.
pub proof fn lemma_trace_replayed(stream: &XmlStream)
    ensures
        stream.budget() > 0 ==> stream.trace() == replayed(stream.input(), stream.requests()),
        replayed(stream.input(), stream.requests()).is_prefix_of(stream.trace()),
{
    let done = replayed(stream.input(), stream.requests());
    assert(stream.trace().take(done.len() as int) =~= done);
}

/// `t1` is `t0` followed by more steps.
pub open spec fn extends(t0: Seq<Obs>, t1: Seq<Obs>) -> bool {
    t0.len() <= t1.len() && t1.take(t0.len() as int) == t0
}

/// The steps of `t1` that follow `t0`.
pub open spec fn since(t1: Seq<Obs>, t0: Seq<Obs>) -> Seq<Obs> {
    t1.skip(t0.len() as int)
}

pub proof fn lemma_extends_split(t0: Seq<Obs>, t1: Seq<Obs>)
    requires
        extends(t0, t1),
    ensures
        t1 == t0 + since(t1, t0),
{
    assert(t1 =~= t0 + since(t1, t0));
}

pub proof fn lemma_extends_trans(t0: Seq<Obs>, t1: Seq<Obs>, t2: Seq<Obs>)
    requires
        extends(t0, t1),
        extends(t1, t2),
    ensures
        extends(t0, t2),
        since(t2, t0) == since(t1, t0) + since(t2, t1),
{
    assert(t2.take(t0.len() as int) =~= t1.take(t0.len() as int));
    assert(since(t2, t0) =~= since(t1, t0) + since(t2, t1));
}

// ---------------------------------------------------------------------------
// Text
// ---------------------------------------------------------------------------

pub open spec fn text_value(r: Result<Seq<u8>, ParseError>) -> Result<Seq<char>, ParseError> {
    match r {
        Ok(bytes) => Ok(utf8_lossy(bytes)),
        Err(e) => Err(e),
    }
}

/// Reading the text of an element up to `</tag>`: one text step.
pub open spec fn text_run(obs: Seq<Obs>, tag: Seq<u8>) -> Option<(Result<Seq<char>, ParseError>, nat)> {
    if obs.len() >= 1 {
        match obs[0] {
            Obs::Text(t, r) => if t == tag {
                Some((text_value(r), 1))
            } else {
                None
            },
            _ => None,
        }
    } else {
        None
    }
}

pub open spec fn string_result(r: Result<String, ParseError>) -> Result<Seq<char>, ParseError> {
    match r {
        Ok(s) => Ok(s@),
        Err(e) => Err(e),
    }
}

/// The content of the element being read, up to its end tag `tag`, decoded
/// lossily.
pub fn read_text(stream: &mut XmlStream, tag: &[u8]) -> (res: Result<String, ParseError>)
    ensures
        extends(old(stream).trace(), final(stream).trace()),
        final(stream).input() == old(stream).input(),
        final(stream).budget() <= old(stream).budget(),
        forall|rest: Seq<Obs>|
            #[trigger] text_run(since(final(stream).trace(), old(stream).trace()) + rest, tag@)
                == Some((string_result(res), since(final(stream).trace(), old(stream).trace()).len())),
{
    let ghost t0 = stream.trace();
    let raw = stream.next_text(tag);
    let res = match raw {
        Ok(bytes) => Ok(from_utf8_lossy(bytes.as_slice())),
        Err(e) => Err(e),
    };
    proof {
        assert(stream.trace().take(t0.len() as int) =~= t0);
        let run = since(stream.trace(), t0);
        assert(run =~= seq![Obs::Text(tag@, bytes_result(raw))]);
        assert forall|rest: Seq<Obs>| #[trigger] text_run(run + rest, tag@) == Some((string_result(res), run.len())) by {
            assert((run + rest)[0] == Obs::Text(tag@, bytes_result(raw)));
        }
    }
    res
}

/// Reading a child element's text into `acc` with `set`.
pub open spec fn text_child<V>(obs: Seq<Obs>, tag: Seq<u8>, acc: V, set: spec_fn(V, Seq<char>) -> V) -> Option<(Result<V, ParseError>, nat)> {
    match text_run(obs, tag) {
        Some((Ok(t), n)) => Some((Ok(set(acc, t)), n)),
        Some((Err(e), n)) => Some((Err(e), n)),
        None => None,
    }
}

/// Applies `set` to `acc` with the value of a successful step.
pub open spec fn then_set<S, V>(r: Option<(Result<S, ParseError>, nat)>, acc: V, set: spec_fn(V, S) -> V) -> Option<(Result<V, ParseError>, nat)> {
    match r {
        Some((Ok(v), n)) => Some((Ok(set(acc, v)), n)),
        Some((Err(e), n)) => Some((Err(e), n)),
        None => None,
    }
}

/// Reading an attribute `key` of a child into `acc` with `set`; without the
/// attribute, reading fails with `missing`. No step is taken.
pub open spec fn attribute_child<V>(child: XmlTag, key: Seq<u8>, missing: ParseError, acc: V, set: spec_fn(V, Seq<char>) -> V) -> Option<(Result<V, ParseError>, nat)> {
    match spec_get_attribute(child, key) {
        Some(v) => Some((Ok(set(acc, v)), 0)),
        None => Some((Err(missing), 0)),
    }
}

// ---------------------------------------------------------------------------
// Scanning for the next child element
// ---------------------------------------------------------------------------

/// What an event means to a scan for the next child element: `None` when
/// the scan goes on past it. A scan inside an element (`end` is its name)
/// stops at that element's end tag; a scan of the whole document (`end` is
/// `None`) stops at the end of the document. Empty-element tags count as
/// children only with `include_empty`.
pub open spec fn scan_outcome(ev: XmlEvent, end: Option<Seq<u8>>, include_empty: bool) -> Option<
    Result<Option<XmlTag>, ParseError>,
> {
    match ev {
        XmlEvent::Start(t) => Some(Ok(Some(t))),
        XmlEvent::Empty(t) => if include_empty {
            Some(Ok(Some(t)))
        } else {
            None
        },
        XmlEvent::End(name) => match end {
            Some(tag) => if name@ == tag {
                Some(Ok(None))
            } else {
                None
            },
            None => None,
        },
        XmlEvent::Eof => match end {
            None => Some(Ok(None)),
            Some(_) => Some(Err(ParseError::UnexpectedEof)),
        },
        _ => None,
    }
}

/// Scanning `obs` for the next child element: the child found (`None` at the
/// end of the scanned element or document) and the number of steps taken.
pub open spec fn scan(obs: Seq<Obs>, end: Option<Seq<u8>>, include_empty: bool) -> Option<
    (Result<Option<XmlTag>, ParseError>, nat),
>
    decreases obs.len(),
{
    if obs.len() == 0 {
        None
    } else {
        match obs[0] {
            Obs::Event(Err(e)) => Some((Err(e), 1)),
            Obs::Event(Ok(ev)) => match scan_outcome(ev, end, include_empty) {
                Some(r) => Some((r, 1)),
                None => match scan(obs.drop_first(), end, include_empty) {
                    Some((r, n)) => Some((r, n + 1)),
                    None => None,
                },
            },
            Obs::Text(_, _) => None,
        }
    }
}

/// `true` when a scan for the next child goes on past the step `o`: text,
/// other markup, an end tag other than that of the scanned element, and an
/// empty-element tag when those are not children.
pub open spec fn passed_over(o: Obs, end: Option<Seq<u8>>, include_empty: bool) -> bool {
    match o {
        Obs::Event(Ok(XmlEvent::Text(_))) => true,
        Obs::Event(Ok(XmlEvent::Other)) => true,
        Obs::Event(Ok(XmlEvent::Empty(_))) => !include_empty,
        Obs::Event(Ok(XmlEvent::End(name))) => end != Some(name@),
        _ => false,
    }
}

/// A scan passes over the steps before its last one, and stops on the first
/// step that it does not pass over: a start tag (or an empty-element tag,
/// when those are children) is the child found; the end tag of the scanned
/// element (or the end of the document, for the whole document) ends it; a
/// failed read, or the end of the document inside the element, is an error.
pub proof fn lemma_scan_first_stop(obs: Seq<Obs>, end: Option<Seq<u8>>, include_empty: bool)
    ensures
        scan(obs, end, include_empty) matches Some((r, n)) ==> {
            &&& 1 <= n <= obs.len()
            &&& forall|j: int| 0 <= j < n - 1 ==> #[trigger] passed_over(obs[j], end, include_empty)
            &&& !passed_over(obs[n - 1], end, include_empty)
            &&& r matches Ok(Some(t)) ==> obs[n - 1] == Obs::Event(Ok(XmlEvent::Start(t)))
                || (include_empty && obs[n - 1] == Obs::Event(Ok(XmlEvent::Empty(t))))
            &&& r matches Ok(None) ==> closes(obs, n, end)
            &&& r matches Err(e) ==> obs[n - 1] == Obs::Event(Err(e))
                || (end is Some && obs[n - 1] == Obs::Event(Ok(XmlEvent::Eof)) && e == ParseError::UnexpectedEof)
        },
    decreases obs.len(),
{
    if obs.len() > 0 {
        let rest = obs.drop_first();
        lemma_scan_first_stop(rest, end, include_empty);
        if let Some((r, n)) = scan(obs, end, include_empty) {
            if n > 1 {
                if let Obs::Event(Ok(ev)) = obs[0] {
                    assert(scan_outcome(ev, end, include_empty) is None);
                    assert(passed_over(obs[0], end, include_empty));
                    assert(scan(rest, end, include_empty) == Some((r, (n - 1) as nat)));
                    assert forall|j: int| 0 <= j < n - 1 implies #[trigger] passed_over(obs[j], end, include_empty) by {
                        if j > 0 {
                            assert(obs[j] == rest[j - 1]);
                        }
                    }
                    assert(obs[n - 1] == rest[n - 2]);
                }
            }
        }
    }
}

pub open spec fn opt_bytes(end: Option<&[u8]>) -> Option<Seq<u8>> {
    match end {
        Some(t) => Some(t@),
        None => None,
    }
}

/// Adds `k` to the step count of a parse outcome.
pub open spec fn shift<T>(x: Option<(T, nat)>, k: nat) -> Option<(T, nat)> {
    match x {
        Some((v, n)) => Some((v, n + k)),
        None => None,
    }
}

/// Reads events up to the next child element, or up to the end of the
/// element being read (`end`), or of the document (`end` is `None`).
pub fn next_child(stream: &mut XmlStream, end: Option<&[u8]>, include_empty: bool) -> (res: Result<Option<XmlTag>, ParseError>)
    ensures
        extends(old(stream).trace(), final(stream).trace()),
        final(stream).input() == old(stream).input(),
        final(stream).budget() <= old(stream).budget(),
        res is Ok ==> final(stream).budget() < old(stream).budget(),
        forall|rest: Seq<Obs>|
            #[trigger] scan(since(final(stream).trace(), old(stream).trace()) + rest, opt_bytes(end), include_empty)
                == Some((res, since(final(stream).trace(), old(stream).trace()).len())),
{
    let ghost t0 = stream.trace();
    let ghost b0 = stream.budget();
    let ghost endv = opt_bytes(end);
    proof {
        assert forall|rest: Seq<Obs>| #[trigger] scan(since(t0, t0) + rest, endv, include_empty)
            == shift(scan(rest, endv, include_empty), since(t0, t0).len()) by {
            assert(since(t0, t0) + rest =~= rest);
        }
        assert(t0.take(t0.len() as int) =~= t0);
    }
    loop
        invariant
            t0 == old(stream).trace(),
            b0 == old(stream).budget(),
            extends(t0, stream.trace()),
            stream.input() == old(stream).input(),
            endv == opt_bytes(end),
            stream.budget() <= b0,
            forall|rest: Seq<Obs>| #[trigger] scan(since(stream.trace(), t0) + rest, endv, include_empty)
                == shift(scan(rest, endv, include_empty), since(stream.trace(), t0).len()),
        decreases stream.budget(),
    {
        let ghost t1 = stream.trace();
        let ghost run1 = since(t1, t0);
        let event = stream.next_event();
        let ghost obs = Obs::Event(event);
        proof {
            lemma_extends_split(t0, t1);
            assert(stream.trace().take(t0.len() as int) =~= t0);
            assert(since(stream.trace(), t0) =~= run1.push(obs));
        }
        let outcome: Option<Result<Option<XmlTag>, ParseError>> = match event {
            Err(e) => Some(Err(e)),
            Ok(XmlEvent::Start(t)) => Some(Ok(Some(t))),
            Ok(XmlEvent::Empty(t)) => if include_empty {
                Some(Ok(Some(t)))
            } else {
                None
            },
            Ok(XmlEvent::End(name)) => match end {
                Some(tag) => if bytes_equal(name.as_slice(), tag) {
                    Some(Ok(None))
                } else {
                    None
                },
                None => None,
            },
            Ok(XmlEvent::Eof) => match end {
                None => Some(Ok(None)),
                Some(_) => Some(Err(ParseError::UnexpectedEof)),
            },
            Ok(_) => None,
        };
        proof {
            assert forall|rest: Seq<Obs>| #[trigger] scan(seq![obs] + rest, endv, include_empty)
                == match outcome { Some(r) => Some((r, 1nat)), None => shift(scan(rest, endv, include_empty), 1) } by {
                let s = seq![obs] + rest;
                assert(s[0] == obs);
                assert(s.drop_first() =~= rest);
            }
            assert forall|rest: Seq<Obs>| #[trigger] scan(since(stream.trace(), t0) + rest, endv, include_empty)
                == match outcome {
                    Some(r) => Some((r, since(stream.trace(), t0).len())),
                    None => shift(scan(rest, endv, include_empty), since(stream.trace(), t0).len()),
                } by {
                assert(since(stream.trace(), t0) + rest =~= run1 + (seq![obs] + rest));
                assert(scan(run1 + (seq![obs] + rest), endv, include_empty)
                    == shift(scan(seq![obs] + rest, endv, include_empty), run1.len()));
            }
        }
        match outcome {
            Some(r) => {
                return r;
            },
            None => {},
        }
    }
}

// ---------------------------------------------------------------------------
// Reading the children of an element
// ---------------------------------------------------------------------------

/// A value built from the children of an element, one child at a time.
///
/// `spec_handle` says what reading a child does to the value: the value
/// after the child (or the error that stopped reading) and the number of
/// steps that reading the child took, `None` when the steps do not match.
pub trait ChildHandler: Sized + DeepView {
    spec fn spec_handle(acc: Self::V, child: XmlTag, obs: Seq<Obs>) -> Option<(Result<Self::V, ParseError>, nat)>;

    /// Takes the child element `child`, whose start tag has just been read.
    fn handle(self, stream: &mut XmlStream, child: &XmlTag) -> (res: Result<Self, ParseError>)
        ensures
            extends(old(stream).trace(), final(stream).trace()),
            final(stream).input() == old(stream).input(),
            final(stream).budget() <= old(stream).budget(),
            forall|rest: Seq<Obs>|
                #[trigger] Self::spec_handle(self.deep_view(), *child, since(final(stream).trace(), old(stream).trace()) + rest)
                    == Some((deep_result(res), since(final(stream).trace(), old(stream).trace()).len())),
    ;
}

pub open spec fn deep_result<A: DeepView>(r: Result<A, ParseError>) -> Result<A::V, ParseError> {
    match r {
        Ok(a) => Ok(a.deep_view()),
        Err(e) => Err(e),
    }
}

/// Reading the children of an element (or of the document, when `end` is
/// `None`) into `acc`, child after child, up to the element's end.
pub open spec fn children<H: ChildHandler>(obs: Seq<Obs>, end: Option<Seq<u8>>, include_empty: bool, acc: H::V) -> Option<
    (Result<H::V, ParseError>, nat),
>
    decreases obs.len(),
{
    match scan(obs, end, include_empty) {
        None => None,
        Some((Err(e), n)) => Some((Err(e), n)),
        Some((Ok(None), n)) => Some((Ok(acc), n)),
        Some((Ok(Some(child)), n)) => if 1 <= n <= obs.len() {
            let rest = obs.skip(n as int);
            match H::spec_handle(acc, child, rest) {
                None => None,
                Some((Err(e), m)) => Some((Err(e), n + m)),
                Some((Ok(acc2), m)) => if m <= rest.len() {
                    shift(children::<H>(rest.skip(m as int), end, include_empty, acc2), n + m)
                } else {
                    None
                },
            }
        } else {
            None
        },
    }
}

proof fn lemma_scan_len(obs: Seq<Obs>, end: Option<Seq<u8>>, include_empty: bool)
    ensures
        scan(obs, end, include_empty) matches Some((_, n)) ==> 1 <= n <= obs.len(),
    decreases obs.len(),
{
    if obs.len() > 0 {
        lemma_scan_len(obs.drop_first(), end, include_empty);
    }
}

/// The step `obs[n - 1]` is what ends the reading of an element: its end
/// tag, or for the whole document (`end` is `None`) the end of the document.
pub open spec fn closes(obs: Seq<Obs>, n: nat, end: Option<Seq<u8>>) -> bool {
    &&& 1 <= n <= obs.len()
    &&& match end {
        Some(tag) => obs[n - 1] matches Obs::Event(Ok(XmlEvent::End(name))) && name@ == tag,
        None => obs[n - 1] matches Obs::Event(Ok(XmlEvent::Eof)),
    }
}

/// A scan that finds no further child stops on the element's end tag (or
/// the document's end).
pub proof fn lemma_scan_closes(obs: Seq<Obs>, end: Option<Seq<u8>>, include_empty: bool)
    ensures
        scan(obs, end, include_empty) matches Some((Ok(None), n)) ==> closes(obs, n, end),
    decreases obs.len(),
{
    if obs.len() > 0 {
        lemma_scan_close_shift(obs, end, include_empty);
    }
}

proof fn lemma_scan_close_shift(obs: Seq<Obs>, end: Option<Seq<u8>>, include_empty: bool)
    requires
        obs.len() > 0,
    ensures
        scan(obs, end, include_empty) matches Some((Ok(None), n)) ==> closes(obs, n, end),
    decreases obs.len(),
{
    let rest = obs.drop_first();
    if rest.len() > 0 {
        lemma_scan_close_shift(rest, end, include_empty);
    }
    if let Some((Ok(None), n)) = scan(obs, end, include_empty) {
        if let Obs::Event(Ok(ev)) = obs[0] {
            if scan_outcome(ev, end, include_empty) is None {
                let k = (n - 1) as nat;
                assert(scan(rest, end, include_empty) == Some((Ok::<Option<XmlTag>, ParseError>(None), k)));
                assert(closes(rest, k, end));
                assert(obs[n - 1] == rest[k - 1]);
            }
        }
    }
}

/// Reading the children of an element, when it succeeds, ends exactly on
/// the element's end tag (for the whole document, on its end): nothing past
/// it is read.
pub proof fn lemma_children_close<H: ChildHandler>(obs: Seq<Obs>, end: Option<Seq<u8>>, include_empty: bool, acc: H::V)
    ensures
        children::<H>(obs, end, include_empty, acc) matches Some((Ok(_), n)) ==> closes(obs, n, end),
    decreases obs.len(),
{
    lemma_scan_closes(obs, end, include_empty);
    if let Some((Ok(Some(child)), n)) = scan(obs, end, include_empty) {
        if 1 <= n <= obs.len() {
            let rest = obs.skip(n as int);
            if let Some((Ok(acc2), m)) = H::spec_handle(acc, child, rest) {
                if m <= rest.len() {
                    let tail = rest.skip(m as int);
                    lemma_children_close::<H>(tail, end, include_empty, acc2);
                    if let Some((Ok(_), k)) = children::<H>(tail, end, include_empty, acc2) {
                        assert(obs[(n + m + k) - 1] == tail[k - 1]);
                    }
                }
            }
        }
    }
}

/// `true` when reading the child `c` from a value that has the property
/// `keep` gives, when it succeeds, a value that has it too.
pub open spec fn handle_keeps<H: ChildHandler>(keep: spec_fn(H::V) -> bool, a: H::V, c: XmlTag, o: Seq<Obs>) -> bool {
    keep(a) ==> match H::spec_handle(a, c, o) {
        Some((Ok(b), _)) => keep(b),
        _ => true,
    }
}

/// A property of the value that reading any one child keeps holds of the
/// value that reading all the children of an element gives.
pub proof fn lemma_children_keep<H: ChildHandler>(
    obs: Seq<Obs>,
    end: Option<Seq<u8>>,
    include_empty: bool,
    acc: H::V,
    keep: spec_fn(H::V) -> bool,
)
    requires
        keep(acc),
        forall|a: H::V, c: XmlTag, o: Seq<Obs>| #[trigger] handle_keeps::<H>(keep, a, c, o),
    ensures
        children::<H>(obs, end, include_empty, acc) matches Some((Ok(v), _)) ==> keep(v),
    decreases obs.len(),
{
    if let Some((Ok(Some(child)), n)) = scan(obs, end, include_empty) {
        if 1 <= n <= obs.len() {
            let rest = obs.skip(n as int);
            assert(handle_keeps::<H>(keep, acc, child, rest));
            if let Some((Ok(acc2), m)) = H::spec_handle(acc, child, rest) {
                if m <= rest.len() {
                    lemma_children_keep::<H>(rest.skip(m as int), end, include_empty, acc2, keep);
                }
            }
        }
    }
}

/// Reads the children of the element being read (or of the document when
/// `end` is `None`) into `acc`, up to the element's end tag (or the end of
/// the document).
#[verifier::spinoff_prover]
#[verifier::rlimit(40)]
pub fn read_children<H: ChildHandler>(stream: &mut XmlStream, end: Option<&[u8]>, include_empty: bool, acc: H) -> (res: Result<H, ParseError>)
    ensures
        extends(old(stream).trace(), final(stream).trace()),
        final(stream).input() == old(stream).input(),
        final(stream).budget() <= old(stream).budget(),
        forall|rest: Seq<Obs>|
            #[trigger] children::<H>(since(final(stream).trace(), old(stream).trace()) + rest, opt_bytes(end), include_empty, acc.deep_view())
                == Some((deep_result(res), since(final(stream).trace(), old(stream).trace()).len())),
{
    let ghost t0 = stream.trace();
    let ghost b0 = stream.budget();
    let ghost endv = opt_bytes(end);
    let ghost init = acc.deep_view();
    let mut current = acc;
    proof {
        assert forall|rest: Seq<Obs>| #[trigger] children::<H>(since(t0, t0) + rest, endv, include_empty, init)
            == shift(children::<H>(rest, endv, include_empty, current.deep_view()), since(t0, t0).len()) by {
            assert(since(t0, t0) + rest =~= rest);
        }
        assert(t0.take(t0.len() as int) =~= t0);
    }
    loop
        invariant
            t0 == old(stream).trace(),
            b0 == old(stream).budget(),
            init == acc.deep_view(),
            extends(t0, stream.trace()),
            stream.input() == old(stream).input(),
            endv == opt_bytes(end),
            stream.budget() <= b0,
            forall|rest: Seq<Obs>| #[trigger] children::<H>(since(stream.trace(), t0) + rest, endv, include_empty, init)
                == shift(children::<H>(rest, endv, include_empty, current.deep_view()), since(stream.trace(), t0).len()),
        decreases stream.budget(),
    {
        let ghost t1 = stream.trace();
        let ghost b1 = stream.budget();
        let ghost before = current.deep_view();
        let next = next_child(stream, end, include_empty);
        let ghost t2 = stream.trace();
        proof {
            lemma_extends_trans(t0, t1, t2);
        }
        match next {
            Err(e) => {
                proof {
                    let run = since(t2, t1);
                    assert forall|rest: Seq<Obs>| #[trigger] children::<H>(since(t2, t0) + rest, endv, include_empty, init)
                        == Some((deep_result::<H>(Err(e)), since(t2, t0).len())) by {
                        assert(since(t2, t0) + rest =~= since(t1, t0) + (run + rest));
                        assert(scan(run + rest, endv, include_empty) == Some((Err::<Option<XmlTag>, ParseError>(e), run.len())));
                        assert(children::<H>(since(t1, t0) + (run + rest), endv, include_empty, init)
                            == shift(children::<H>(run + rest, endv, include_empty, before), since(t1, t0).len()));
                    }
                }
                return Err(e);
            },
            Ok(None) => {
                proof {
                    let run = since(t2, t1);
                    assert forall|rest: Seq<Obs>| #[trigger] children::<H>(since(t2, t0) + rest, endv, include_empty, init)
                        == Some((deep_result::<H>(Ok(current)), since(t2, t0).len())) by {
                        assert(since(t2, t0) + rest =~= since(t1, t0) + (run + rest));
                        assert(scan(run + rest, endv, include_empty) == Some((Ok::<Option<XmlTag>, ParseError>(None), run.len())));
                        assert(children::<H>(since(t1, t0) + (run + rest), endv, include_empty, init)
                            == shift(children::<H>(run + rest, endv, include_empty, before), since(t1, t0).len()));
                    }
                }
                return Ok(current);
            },
            Ok(Some(child)) => {
                let handled = current.handle(stream, &child);
                let ghost t3 = stream.trace();
                proof {
                    lemma_extends_trans(t0, t2, t3);
                    lemma_extends_trans(t1, t2, t3);
                }
                let ghost run_s = since(t2, t1);
                let ghost run_h = since(t3, t2);
                proof {
                    assert forall|rest: Seq<Obs>| #[trigger] children::<H>(run_s + run_h + rest, endv, include_empty, before)
                        == match handled {
                            Ok(a) => shift(children::<H>(rest, endv, include_empty, a.deep_view()), run_s.len() + run_h.len()),
                            Err(e) => Some((Err(e), run_s.len() + run_h.len())),
                        } by {
                        let all = run_s + run_h + rest;
                        assert(all =~= run_s + (run_h + rest));
                        assert(scan(run_s + (run_h + rest), endv, include_empty) == Some((Ok::<Option<XmlTag>, ParseError>(Some(child)), run_s.len())));
                        lemma_scan_len(all, endv, include_empty);
                        assert(all.skip(run_s.len() as int) =~= run_h + rest);
                        assert(H::spec_handle(before, child, run_h + rest) == Some((deep_result(handled), run_h.len())));
                        assert((run_h + rest).skip(run_h.len() as int) =~= rest);
                    }
                    assert forall|rest: Seq<Obs>| #[trigger] children::<H>(since(t3, t0) + rest, endv, include_empty, init)
                        == match handled {
                            Ok(a) => shift(children::<H>(rest, endv, include_empty, a.deep_view()), since(t3, t0).len()),
                            Err(e) => Some((Err(e), since(t3, t0).len())),
                        } by {
                        assert(since(t3, t0) + rest =~= since(t1, t0) + (run_s + run_h + rest));
                        assert(since(t3, t1) =~= run_s + run_h);
                    }
                }
                match handled {
                    Ok(a) => {
                        current = a;
                    },
                    Err(e) => {
                        return Err(e);
                    },
                }
            },
        }
    }
}

/// Reads the elements of the document into `handler`, up to its end.
pub fn parse<H: ChildHandler>(stream: &mut XmlStream, handler: H) -> (res: Result<H, ParseError>)
    ensures
        extends(old(stream).trace(), final(stream).trace()),
        final(stream).input() == old(stream).input(),
        final(stream).budget() <= old(stream).budget(),
        forall|rest: Seq<Obs>|
            #[trigger] children::<H>(since(final(stream).trace(), old(stream).trace()) + rest, None, true, handler.deep_view())
                == Some((deep_result(res), since(final(stream).trace(), old(stream).trace()).len())),
{
    read_children(stream, None, true, handler)
}

/// Reads the child elements of the element being read into `handler`, up to
/// its end tag `tag`.
pub fn parse_tag<H: ChildHandler>(stream: &mut XmlStream, tag: &[u8], handler: H) -> (res: Result<H, ParseError>)
    ensures
        extends(old(stream).trace(), final(stream).trace()),
        final(stream).input() == old(stream).input(),
        final(stream).budget() <= old(stream).budget(),
        forall|rest: Seq<Obs>|
            #[trigger] children::<H>(since(final(stream).trace(), old(stream).trace()) + rest, Some(tag@), true, handler.deep_view())
                == Some((deep_result(res), since(final(stream).trace(), old(stream).trace()).len())),
{
    read_children(stream, Some(tag), true, handler)
}


/// `true` when the start tag `tag` is named `name`.
pub fn is_named(tag: &XmlTag, name: &str) -> (res: bool)
    ensures
        res == (tag.name@ == name.spec_bytes()),
{
    bytes_equal(tag.name.as_slice(), name.as_bytes())
}

/// A stream that took no step since `t`.
pub proof fn lemma_no_step(t: Seq<Obs>)
    ensures
        extends(t, t),
        since(t, t) == Seq::<Obs>::empty(),
        forall|rest: Seq<Obs>| #[trigger] (since(t, t) + rest) == rest,
{
    assert(t.take(t.len() as int) =~= t);
    assert(since(t, t) =~= Seq::<Obs>::empty());
    assert forall|rest: Seq<Obs>| #[trigger] (since(t, t) + rest) == rest by {
        assert(since(t, t) + rest =~= rest);
    }
}

// ---------------------------------------------------------------------------
// Elements
// ---------------------------------------------------------------------------

/// A value read from an element of the document, starting at its start tag.
pub trait Parse: Sized + DeepView {
    /// The name of the element that holds the value.
    spec fn element_name() -> Seq<u8>;

    /// The name of the element that holds the value.
    fn tag_name() -> (name: &'static str)
        ensures
            name.spec_bytes() == Self::element_name(),
    ;

    /// The start tags from which the value can be read.
    spec fn accepts(e: XmlTag) -> bool;

    /// `true` when the value can be read from start tag `e`.
    fn can_parse(e: &XmlTag) -> (res: bool)
        ensures
            res == Self::accepts(*e),
    ;

    /// Reading the value that starts with tag `e`: the value (or the error
    /// that stopped the reading) and the number of steps taken.
    spec fn spec_parse(e: XmlTag, obs: Seq<Obs>) -> Option<(Result<Self::V, ParseError>, nat)>;

    /// Reads the value whose start tag `e` has just been read.
    fn parse(stream: &mut XmlStream, e: &XmlTag) -> (res: Result<Self, ParseError>)
        requires
            Self::accepts(*e),
        ensures
            extends(old(stream).trace(), final(stream).trace()),
            final(stream).input() == old(stream).input(),
            final(stream).budget() <= old(stream).budget(),
            forall|rest: Seq<Obs>|
                #[trigger] Self::spec_parse(*e, since(final(stream).trace(), old(stream).trace()) + rest)
                    == Some((deep_result(res), since(final(stream).trace(), old(stream).trace()).len())),
    ;
}

/// The elements named `T::element_name()` among the children of an element,
/// read in order; other children are passed over.
pub struct ElementList<T> {
    pub items: Vec<T>,
}

impl<T: DeepView> DeepView for ElementList<T> {
    type V = Seq<T::V>;

    open spec fn deep_view(&self) -> Seq<T::V> {
        self.items.deep_view()
    }
}

impl<T> ElementList<T> {
    pub fn new() -> (list: Self)
        ensures
            list.items@ == Seq::<T>::empty(),
    {
        ElementList { items: Vec::new() }
    }
}

/// The error of an element whose `id` attribute is missing.
pub open spec fn missing_id() -> ParseError {
    ParseError::MissingAttribute("id not found")
}

/// Reading one child of a list: an element of the listed kind is read and
/// added, unless its start tag does not allow it; any other child is passed
/// over.
pub open spec fn list_step<T: Parse>(acc: Seq<T::V>, child: XmlTag, obs: Seq<Obs>) -> Option<(Result<Seq<T::V>, ParseError>, nat)> {
    if child.name@ == T::element_name() {
        if T::accepts(child) {
            match T::spec_parse(child, obs) {
                Some((Ok(v), n)) => Some((Ok(acc.push(v)), n)),
                Some((Err(e), n)) => Some((Err(e), n)),
                None => None,
            }
        } else {
            Some((Err(missing_id()), 0))
        }
    } else {
        Some((Ok(acc), 0))
    }
}

impl<T: Parse> ChildHandler for ElementList<T> {
    open spec fn spec_handle(acc: Seq<T::V>, child: XmlTag, obs: Seq<Obs>) -> Option<(Result<Seq<T::V>, ParseError>, nat)> {
        list_step::<T>(acc, child, obs)
    }

    fn handle(self, stream: &mut XmlStream, child: &XmlTag) -> (res: Result<Self, ParseError>) {
        let ghost t0 = stream.trace();
        let mut list = self;
        if is_named(child, T::tag_name()) {
            if T::can_parse(child) {
                let ghost before = list.items.deep_view();
                match T::parse(stream, child) {
                    Ok(item) => {
                        list.items.push(item);
                        proof {
                            assert(list.items.deep_view() =~= before.push(item.deep_view()));
                        }
                        Ok(list)
                    },
                    Err(e) => Err(e),
                }
            } else {
                proof { lemma_no_step(t0); }
                Err(ParseError::MissingAttribute("id not found"))
            }
        } else {
            proof { lemma_no_step(t0); }
            Ok(list)
        }
    }
}

/// Reading a child of a list: an element of the listed kind that can be
/// read keeps the elements read before and adds the one read after them,
/// and fails exactly when reading it fails; one whose start tag does not
/// allow it fails with `missing_id()`; any other child changes nothing and
/// takes no step.
pub proof fn lemma_list_step_appends<T: Parse>(acc: Seq<T::V>, child: XmlTag, obs: Seq<Obs>)
    ensures
        child.name@ != T::element_name() ==> list_step::<T>(acc, child, obs) == Some((Ok::<Seq<T::V>, ParseError>(acc), 0nat)),
        child.name@ == T::element_name() && !T::accepts(child) ==> list_step::<T>(acc, child, obs)
            == Some((Err::<Seq<T::V>, ParseError>(missing_id()), 0nat)),
        child.name@ == T::element_name() && T::accepts(child) ==> match T::spec_parse(child, obs) {
            Some((Ok(x), n)) => list_step::<T>(acc, child, obs) matches Some((Ok(v), m)) && {
                &&& m == n
                &&& v.len() == acc.len() + 1
                &&& v.take(acc.len() as int) == acc
                &&& v.last() == x
            },
            Some((Err(e), n)) => list_step::<T>(acc, child, obs) == Some((Err::<Seq<T::V>, ParseError>(e), n)),
            None => list_step::<T>(acc, child, obs) is None,
        },
{
    if let Some((Ok(x), n)) = T::spec_parse(child, obs) {
        assert(acc.push(x).take(acc.len() as int) =~= acc);
    }
}

/// Over the reading of a whole list, the elements held at the start are
/// kept at the head of the elements returned, and the list grows by at most
/// one element per step read.
pub proof fn lemma_list_keeps_elements<T: Parse>(obs: Seq<Obs>, end: Option<Seq<u8>>, include_empty: bool, acc: Seq<T::V>)
    ensures
        children::<ElementList<T>>(obs, end, include_empty, acc) matches Some((Ok(v), n)) ==> {
            &&& acc.is_prefix_of(v)
            &&& v.len() <= acc.len() + n
        },
    decreases obs.len(),
{
    if let Some((Ok(Some(child)), n)) = scan(obs, end, include_empty) {
        if 1 <= n <= obs.len() {
            let rest = obs.skip(n as int);
            lemma_list_step_appends::<T>(acc, child, rest);
            if let Some((Ok(acc2), m)) = list_step::<T>(acc, child, rest) {
                if m <= rest.len() {
                    let tail = rest.skip(m as int);
                    lemma_list_keeps_elements::<T>(tail, end, include_empty, acc2);
                    if let Some((Ok(v), k)) = children::<ElementList<T>>(tail, end, include_empty, acc2) {
                        assert(acc.is_prefix_of(acc2));
                        assert(v.take(acc.len() as int) =~= v.take(acc2.len() as int).take(acc.len() as int));
                    }
                }
            }
        }
    }
    if let Some((Ok(None), n)) = scan(obs, end, include_empty) {
        assert(acc.take(acc.len() as int) =~= acc);
    }
}

/// Reads the elements named `T::element_name()` among the children of the
/// element being read, up to its end tag `tag`.
pub fn parse_list<T: Parse>(stream: &mut XmlStream, tag: &[u8]) -> (res: Result<Vec<T>, ParseError>)
    ensures
        extends(old(stream).trace(), final(stream).trace()),
        final(stream).input() == old(stream).input(),
        final(stream).budget() <= old(stream).budget(),
        forall|rest: Seq<Obs>|
            #[trigger] children::<ElementList<T>>(since(final(stream).trace(), old(stream).trace()) + rest, Some(tag@), true, Seq::empty())
                == Some((deep_result(res), since(final(stream).trace(), old(stream).trace()).len())),
{
    let list = ElementList::<T>::new();
    proof {
        assert(list.deep_view() =~= Seq::<T::V>::empty());
    }
    match parse_tag(stream, tag, list) {
        Ok(list) => Ok(list.items),
        Err(e) => Err(e),
    }
}

} // verus!
