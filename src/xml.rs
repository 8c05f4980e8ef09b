use vstd::prelude::*;

use crate::bytes::append_bytes;
use quick_xml::events::Event;
use vstd::string::StringSliceAdditionalSpecFns;
use vstd::utf8::{decode_utf8, valid_utf8};

verus! {

/// The kind of markup that one event of the XML reader stands for.
#[derive(Clone, Copy, Debug, PartialEq, Eq, Structural)]
pub enum EventKind {
    /// `<name attrs>`
    Start,
    /// `</name>`
    End,
    /// `<name attrs/>`
    Empty,
    /// character data between markup, as written
    Text,
    /// `<![CDATA[...]]>`
    CData,
    /// `<!--...-->`
    Comment,
    /// `<?xml ...?>`
    Decl,
    /// `<?...?>`
    PI,
    /// `<!DOCTYPE ...>`
    DocType,
    /// the end of the document
    Eof,
}

/// One event of the XML reader: its kind and the raw bytes between the
/// delimiters of its markup (for a tag: the name and the attributes).
#[derive(Debug)]
pub struct XmlEvent {
    pub kind: EventKind,
    pub content: Vec<u8>,
}

impl View for XmlEvent {
    type V = (EventKind, Seq<u8>);

    open spec fn view(&self) -> (EventKind, Seq<u8>) {
        (self.kind, self.content@)
    }
}

/// The view of an event that may be missing.
pub open spec fn event_option_view(e: Option<XmlEvent>) -> Option<(EventKind, Seq<u8>)> {
    match e {
        Some(ev) => Some(ev@),
        None => None,
    }
}

/// What the `reads`-th call of `read_event` (counting from zero) hands out,
/// on a reader made over `input` with the default configuration: `None` where
/// that call fails.
pub uninterp spec fn xml_read(input: Seq<u8>, reads: nat) -> Option<(EventKind, Seq<u8>)>;

/// The error position that a reader made over `input` reports after `reads`
/// calls of `read_event`.
pub uninterp spec fn xml_error_position(input: Seq<u8>, reads: nat) -> u64;

#[verifier::external_type_specification]
#[verifier::external_body]
#[verifier::reject_recursive_types(R)]
pub struct ExReader<R>(quick_xml::Reader<R>);

/// Relies on quick_xml::Reader::from_reader: a reader over the given bytes.
pub assume_specification<R>[ quick_xml::Reader::<R>::from_reader ](reader: R) -> quick_xml::Reader<R>;

/// A pull reader of XML events over a byte slice, which remembers (as ghost
/// state) what it reads and how many events it has handed out.
pub(crate) struct EventReader<'a> {
    reader: quick_xml::Reader<&'a [u8]>,
    input: Ghost<Seq<u8>>,
    reads: Ghost<nat>,
}

impl<'a> EventReader<'a> {
    /// The bytes that the reader was made over.
    pub(crate) closed spec fn input(&self) -> Seq<u8> {
        self.input@
    }

    /// How many events the reader has handed out.
    pub(crate) closed spec fn reads(&self) -> nat {
        self.reads@
    }

    /// A reader over `input`, before its first event.
    pub(crate) fn new(input: &'a [u8]) -> (r: Self)
        ensures
            r.input() == input@,
            r.reads() == 0,
    {
        EventReader {
            reader: quick_xml::Reader::from_reader(input),
            input: Ghost(input@),
            reads: Ghost(0),
        }
    }

    /// Relies on quick_xml::Reader::read_event: what it hands out depends on the
    /// input and on how many events were read before; the event's bytes are
    /// what it dereferences to.
    #[verifier::external_body]
    pub(crate) fn read_event(&mut self) -> (r: Option<XmlEvent>)
        ensures
            final(self).input() == old(self).input(),
            final(self).reads() == old(self).reads() + 1,
            event_option_view(r) == xml_read(old(self).input(), old(self).reads()),
    {
        let e = self.reader.read_event().ok()?;
        let kind = match e {
            Event::Start(_) => EventKind::Start,
            Event::End(_) => EventKind::End,
            Event::Empty(_) => EventKind::Empty,
            Event::Text(_) => EventKind::Text,
            Event::CData(_) => EventKind::CData,
            Event::Comment(_) => EventKind::Comment,
            Event::Decl(_) => EventKind::Decl,
            Event::PI(_) => EventKind::PI,
            Event::DocType(_) => EventKind::DocType,
            Event::Eof => EventKind::Eof,
        };
        Some(XmlEvent { kind, content: e.to_vec() })
    }

    /// Relies on quick_xml::Reader::error_position: where the reader saw the
    /// last error.
    #[verifier::external_body]
    pub(crate) fn error_position(&self) -> (r: u64)
        ensures
            r == xml_error_position(self.input(), self.reads()),
    {
        self.reader.error_position()
    }
}

/// The bytes written before an event's content: `<`, `</`, `<![CDATA[`,
/// `<!--`, `<?`, `<!DOCTYPE ` or nothing.
pub open spec fn opening(kind: EventKind) -> Seq<u8> {
    match kind {
        EventKind::Start | EventKind::Empty => seq![0x3cu8],
        EventKind::End => seq![0x3cu8, 0x2fu8],
        EventKind::CData => seq![0x3cu8, 0x21u8, 0x5bu8, 0x43u8, 0x44u8, 0x41u8, 0x54u8, 0x41u8, 0x5bu8],
        EventKind::Comment => seq![0x3cu8, 0x21u8, 0x2du8, 0x2du8],
        EventKind::Decl | EventKind::PI => seq![0x3cu8, 0x3fu8],
        EventKind::DocType => seq![0x3cu8, 0x21u8, 0x44u8, 0x4fu8, 0x43u8, 0x54u8, 0x59u8, 0x50u8, 0x45u8, 0x20u8],
        EventKind::Text | EventKind::Eof => seq![],
    }
}

/// The bytes written after an event's content: `>`, `/>`, `]]>`, `-->`,
/// `?>` or nothing.
pub open spec fn closing(kind: EventKind) -> Seq<u8> {
    match kind {
        EventKind::Start | EventKind::End | EventKind::DocType => seq![0x3eu8],
        EventKind::Empty => seq![0x2fu8, 0x3eu8],
        EventKind::CData => seq![0x5du8, 0x5du8, 0x3eu8],
        EventKind::Comment => seq![0x2du8, 0x2du8, 0x3eu8],
        EventKind::Decl | EventKind::PI => seq![0x3fu8, 0x3eu8],
        EventKind::Text | EventKind::Eof => seq![],
    }
}

/// How an event is written back: its content framed by the delimiters of its
/// kind, without indentation; the end of the document writes nothing.
pub open spec fn event_bytes(e: (EventKind, Seq<u8>)) -> Seq<u8> {
    if e.0 == EventKind::Eof {
        seq![]
    } else {
        opening(e.0) + e.1 + closing(e.0)
    }
}

fn push_opening(out: &mut Vec<u8>, kind: EventKind)
    ensures
        final(out)@ == old(out)@ + opening(kind),
{
    let ghost start = out@;
    match kind {
        EventKind::Start | EventKind::Empty => {
            out.push(0x3cu8);
        },
        EventKind::End => {
            out.push(0x3cu8);
            out.push(0x2fu8);
        },
        EventKind::CData => {
            out.push(0x3cu8);
            out.push(0x21u8);
            out.push(0x5bu8);
            out.push(0x43u8);
            out.push(0x44u8);
            out.push(0x41u8);
            out.push(0x54u8);
            out.push(0x41u8);
            out.push(0x5bu8);
        },
        EventKind::Comment => {
            out.push(0x3cu8);
            out.push(0x21u8);
            out.push(0x2du8);
            out.push(0x2du8);
        },
        EventKind::Decl | EventKind::PI => {
            out.push(0x3cu8);
            out.push(0x3fu8);
        },
        EventKind::DocType => {
            out.push(0x3cu8);
            out.push(0x21u8);
            out.push(0x44u8);
            out.push(0x4fu8);
            out.push(0x43u8);
            out.push(0x54u8);
            out.push(0x59u8);
            out.push(0x50u8);
            out.push(0x45u8);
            out.push(0x20u8);
        },
        EventKind::Text | EventKind::Eof => {},
    }
    assert(out@ =~= start + opening(kind));
}

fn push_closing(out: &mut Vec<u8>, kind: EventKind)
    ensures
        final(out)@ == old(out)@ + closing(kind),
{
    let ghost start = out@;
    match kind {
        EventKind::Start | EventKind::End | EventKind::DocType => {
            out.push(0x3eu8);
        },
        EventKind::Empty => {
            out.push(0x2fu8);
            out.push(0x3eu8);
        },
        EventKind::CData => {
            out.push(0x5du8);
            out.push(0x5du8);
            out.push(0x3eu8);
        },
        EventKind::Comment => {
            out.push(0x2du8);
            out.push(0x2du8);
            out.push(0x3eu8);
        },
        EventKind::Decl | EventKind::PI => {
            out.push(0x3fu8);
            out.push(0x3eu8);
        },
        EventKind::Text | EventKind::Eof => {},
    }
    assert(out@ =~= start + closing(kind));
}

/// Appends the bytes of one event, framed as its kind is written.
pub fn write_event(out: &mut Vec<u8>, e: &XmlEvent)
    ensures
        final(out)@ == old(out)@ + event_bytes(e@),
{
    let ghost start = out@;
    if e.kind == EventKind::Eof {
        assert(out@ =~= start + event_bytes(e@));
        return;
    }
    push_opening(out, e.kind);
    append_bytes(out, e.content.as_slice());
    push_closing(out, e.kind);
    assert(out@ =~= start + event_bytes(e@));
}

/// The XML white space bytes: space, tab, carriage return, line feed.
pub open spec fn is_xml_space(b: u8) -> bool {
    b == 0x20u8 || b == 0x09u8 || b == 0x0du8 || b == 0x0au8
}

fn is_space(b: u8) -> (r: bool)
    ensures
        r == is_xml_space(b),
{
    b == 0x20u8 || b == 0x09u8 || b == 0x0du8 || b == 0x0au8
}

/// The length of a tag's name: its content up to the first white space.
pub open spec fn name_end(content: Seq<u8>) -> nat
    decreases content.len(),
{
    if content.len() == 0 || is_xml_space(content[0]) {
        0
    } else {
        1 + name_end(content.drop_first())
    }
}

/// A name ends at the first white space byte, or at the end of the content.
pub proof fn lemma_name_end(content: Seq<u8>, i: int)
    requires
        0 <= i <= content.len(),
        forall|j: int| 0 <= j < i ==> !is_xml_space(#[trigger] content[j]),
        i == content.len() || is_xml_space(content[i]),
    ensures
        name_end(content) == i,
    decreases content.len(),
{
    if content.len() > 0 && !is_xml_space(content[0]) {
        let rest = content.drop_first();
        assert forall|j: int| 0 <= j < i - 1 implies !is_xml_space(#[trigger] rest[j]) by {
            assert(rest[j] == content[j + 1]);
        }
        if i - 1 < rest.len() {
            assert(rest[i - 1] == content[i]);
        }
        lemma_name_end(rest, i - 1);
    } else if content.len() > 0 {
        assert(!(0 < i) || !is_xml_space(content[0]));
    }
}

/// The length of the name at the start of a tag's content.
pub fn name_len(content: &[u8]) -> (n: usize)
    ensures
        n == name_end(content@),
        n <= content@.len(),
{
    let mut i: usize = 0;
    while i < content.len() && !is_space(content[i])
        invariant
            i <= content@.len(),
            forall|j: int| 0 <= j < i ==> !is_xml_space(#[trigger] content@[j]),
        decreases content@.len() - i,
    {
        i = i + 1;
    }
    proof {
        lemma_name_end(content@, i as int);
    }
    i
}

/// An attribute as the tag holds it: its key and its value, still escaped.
#[derive(Debug)]
pub struct Attr {
    pub key: Vec<u8>,
    pub value: Vec<u8>,
}

impl View for Attr {
    type V = (Seq<u8>, Seq<u8>);

    open spec fn view(&self) -> (Seq<u8>, Seq<u8>) {
        (self.key@, self.value@)
    }
}

/// The views of a list of attributes.
pub open spec fn attrs_view(attrs: Seq<Attr>) -> Seq<(Seq<u8>, Seq<u8>)> {
    attrs.map_values(|a: Attr| a@)
}

/// The attributes that follow byte `start` of a tag's content, in order, or
/// `None` where one of them is malformed or a key repeats.
pub uninterp spec fn xml_attributes(content: Seq<u8>, start: nat) -> Option<Seq<(Seq<u8>, Seq<u8>)>>;

/// Relies on quick_xml::events::attributes::Attributes::new and its iterator:
/// the attributes after byte `start`, in order, each key and raw value copied.
#[verifier::external_body]
pub(crate) fn tag_attributes(content: &str, start: usize) -> (r: Option<Vec<Attr>>)
    requires
        start <= content.spec_bytes().len(),
    ensures
        match r {
            Some(v) => xml_attributes(content.spec_bytes(), start as nat) == Some(attrs_view(v@)),
            None => xml_attributes(content.spec_bytes(), start as nat) is None,
        },
{
    quick_xml::events::attributes::Attributes::new(content, start)
        .map(|a| a.map(|a| Attr { key: a.key.as_ref().to_vec(), value: a.value.to_vec() }))
        .collect::<Result<Vec<Attr>, _>>()
        .ok()
}

/// Relies on std::str::from_utf8: the bytes are taken exactly when they are
/// UTF-8, and then read as the characters that they encode.
#[verifier::external_body]
pub(crate) fn utf8_text(b: &[u8]) -> (r: Option<String>)
    ensures
        match r {
            Some(s) => valid_utf8(b@) && s@ == decode_utf8(b@),
            None => !valid_utf8(b@),
        },
{
    std::str::from_utf8(b).ok().map(String::from)
}

} // verus!
