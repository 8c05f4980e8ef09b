use vstd::prelude::*;

use crate::bytes::{append_bytes, range_eq};
use crate::url_host::{host_replaced, rewrite_host, text_result_view, UrlError};
use crate::xml::{
    attrs_view, event_bytes, name_end, name_len, tag_attributes, utf8_text, write_event,
    xml_attributes, xml_error_position, xml_read, Attr, EventKind, EventReader, XmlEvent,
};
use vstd::string::StringSliceAdditionalSpecFns;
use vstd::utf8::{decode_utf8, decode_utf8_encode_utf8, encode_utf8, valid_utf8};

verus! {

/// Why a configuration document could not be rewritten.
#[derive(Clone, Copy, Debug, PartialEq, Eq, Structural)]
pub enum EditError {
    /// The XML reader failed; `offset` is where it saw the error.
    XmlParse { offset: u64 },
    /// An attribute of an `endpoint` element is malformed or repeated.
    Attribute,
    /// Text that must be UTF-8 is not.
    Encoding,
    /// An `address` value is not a URL.
    InvalidUrl,
    /// An `address` URL cannot take the new host.
    InvalidHost,
}

/// The name of the elements whose address is rewritten: `endpoint`.
pub open spec fn endpoint_name() -> Seq<u8> {
    seq![0x65u8, 0x6eu8, 0x64u8, 0x70u8, 0x6fu8, 0x69u8, 0x6eu8, 0x74u8]
}

/// The local name of the attribute that is rewritten: `address`.
pub open spec fn address_name() -> Seq<u8> {
    seq![0x61u8, 0x64u8, 0x64u8, 0x72u8, 0x65u8, 0x73u8, 0x73u8]
}

/// The part of `s` after its first colon, if it has one.
pub open spec fn after_first_colon(s: Seq<u8>) -> Option<Seq<u8>>
    decreases s.len(),
{
    if s.len() == 0 {
        None
    } else if s[0] == 0x3au8 {
        Some(s.drop_first())
    } else {
        after_first_colon(s.drop_first())
    }
}

/// A qualified name without its prefix: what follows the first colon, or
/// the whole name where it has none.
pub open spec fn local_name(key: Seq<u8>) -> Seq<u8> {
    match after_first_colon(key) {
        Some(rest) => rest,
        None => key,
    }
}

/// Whether an attribute key names the address, with any prefix.
pub open spec fn is_address(key: Seq<u8>) -> bool {
    local_name(key) == address_name()
}

/// The value that an attribute has after the rewrite to `host`.
pub open spec fn new_value(attr: (Seq<u8>, Seq<u8>), host: Seq<char>) -> Result<Seq<u8>, EditError> {
    if !is_address(attr.0) {
        Ok(attr.1)
    } else if !valid_utf8(attr.1) {
        Err(EditError::Encoding)
    } else {
        match host_replaced(decode_utf8(attr.1), host) {
            Ok(t) => Ok(encode_utf8(t)),
            Err(UrlError::InvalidUrl) => Err(EditError::InvalidUrl),
            Err(UrlError::InvalidHost) => Err(EditError::InvalidHost),
        }
    }
}

/// The attributes after the rewrite to `host`, in their order; the first
/// failure, counting from the left, is the result where there is one.
pub open spec fn rewrite_attrs(attrs: Seq<(Seq<u8>, Seq<u8>)>, host: Seq<char>) -> Result<
    Seq<(Seq<u8>, Seq<u8>)>,
    EditError,
>
    decreases attrs.len(),
{
    if attrs.len() == 0 {
        Ok(seq![])
    } else {
        match rewrite_attrs(attrs.drop_last(), host) {
            Err(e) => Err(e),
            Ok(done) => match new_value(attrs.last(), host) {
                Err(e) => Err(e),
                Ok(v) => Ok(done.push((attrs.last().0, v))),
            },
        }
    }
}

/// One attribute as it is written back: ` key="value"`.
pub open spec fn attr_bytes(attr: (Seq<u8>, Seq<u8>)) -> Seq<u8> {
    seq![0x20u8] + attr.0 + seq![0x3du8, 0x22u8] + attr.1 + seq![0x22u8]
}

/// A list of attributes as it is written back.
pub open spec fn attrs_bytes(attrs: Seq<(Seq<u8>, Seq<u8>)>) -> Seq<u8>
    decreases attrs.len(),
{
    if attrs.len() == 0 {
        seq![]
    } else {
        attrs_bytes(attrs.drop_last()) + attr_bytes(attrs.last())
    }
}

/// Whether one of the attributes is an address.
pub open spec fn has_address(attrs: Seq<(Seq<u8>, Seq<u8>)>) -> bool {
    exists|i: int| 0 <= i < attrs.len() && is_address(#[trigger] attrs[i].0)
}

/// The content of an `endpoint` tag after the rewrite to `host`: unchanged
/// where it has no address; else its name followed by its attributes, the
/// address rewritten, each written back as ` key="value"`.
pub open spec fn rewrite_tag(content: Seq<u8>, host: Seq<char>) -> Result<Seq<u8>, EditError> {
    if !valid_utf8(content) {
        Err(EditError::Encoding)
    } else {
        match xml_attributes(content, name_end(content)) {
            None => Err(EditError::Attribute),
            Some(attrs) => if !has_address(attrs) {
                Ok(content)
            } else {
                match rewrite_attrs(attrs, host) {
                    Err(e) => Err(e),
                    Ok(new_attrs) => Ok(
                        content.subrange(0, name_end(content) as int) + attrs_bytes(new_attrs),
                    ),
                }
            },
        }
    }
}

/// Whether an event is a self-closing `endpoint` element.
pub open spec fn is_endpoint(e: (EventKind, Seq<u8>)) -> bool {
    e.0 == EventKind::Empty && e.1.subrange(0, name_end(e.1) as int) == endpoint_name()
}

/// An event after the rewrite to `host`: only `endpoint` elements change.
pub open spec fn rewrite_event(e: (EventKind, Seq<u8>), host: Seq<char>) -> Result<
    (EventKind, Seq<u8>),
    EditError,
> {
    if is_endpoint(e) {
        match rewrite_tag(e.1, host) {
            Ok(c) => Ok((e.0, c)),
            Err(x) => Err(x),
        }
    } else {
        Ok(e)
    }
}

/// The view of a result that holds bytes.
pub open spec fn bytes_result_view(r: Result<Vec<u8>, EditError>) -> Result<Seq<u8>, EditError> {
    match r {
        Ok(v) => Ok(v@),
        Err(e) => Err(e),
    }
}

/// The view of a result that holds an event.
pub open spec fn event_result_view(r: Result<XmlEvent, EditError>) -> Result<
    (EventKind, Seq<u8>),
    EditError,
> {
    match r {
        Ok(e) => Ok(e@),
        Err(x) => Err(x),
    }
}

fn endpoint_bytes() -> (r: Vec<u8>)
    ensures
        r@ == endpoint_name(),
{
    let mut r: Vec<u8> = Vec::new();
    r.push(0x65u8);
    r.push(0x6eu8);
    r.push(0x64u8);
    r.push(0x70u8);
    r.push(0x6fu8);
    r.push(0x69u8);
    r.push(0x6eu8);
    r.push(0x74u8);
    assert(r@ =~= endpoint_name());
    r
}

fn address_bytes() -> (r: Vec<u8>)
    ensures
        r@ == address_name(),
{
    let mut r: Vec<u8> = Vec::new();
    r.push(0x61u8);
    r.push(0x64u8);
    r.push(0x64u8);
    r.push(0x72u8);
    r.push(0x65u8);
    r.push(0x73u8);
    r.push(0x73u8);
    assert(r@ =~= address_name());
    r
}

proof fn lemma_after_first_colon(s: Seq<u8>, i: int)
    requires
        0 <= i <= s.len(),
        forall|j: int| 0 <= j < i ==> #[trigger] s[j] != 0x3au8,
    ensures
        after_first_colon(s) == after_first_colon(s.subrange(i, s.len() as int)),
    decreases i,
{
    if i > 0 {
        let rest = s.drop_first();
        assert forall|j: int| 0 <= j < i - 1 implies #[trigger] rest[j] != 0x3au8 by {
            assert(rest[j] == s[j + 1]);
        }
        lemma_after_first_colon(rest, i - 1);
        assert(rest.subrange(i - 1, rest.len() as int) =~= s.subrange(i, s.len() as int));
    } else {
        assert(s.subrange(0, s.len() as int) =~= s);
    }
}

/// Whether an attribute key names the address, with any prefix.
pub fn is_address_key(key: &[u8]) -> (r: bool)
    ensures
        r == is_address(key@),
{
    let mut i: usize = 0;
    while i < key.len() && key[i] != 0x3au8
        invariant
            i <= key@.len(),
            forall|j: int| 0 <= j < i ==> #[trigger] key@[j] != 0x3au8,
        decreases key@.len() - i,
    {
        i = i + 1;
    }
    proof {
        lemma_after_first_colon(key@, i as int);
        let rest = key@.subrange(i as int, key@.len() as int);
        if i < key.len() {
            assert(rest[0] == 0x3au8);
            assert(rest.drop_first() =~= key@.subrange(i + 1, key@.len() as int));
        } else {
            assert(rest.len() == 0);
            assert(key@.subrange(0, key@.len() as int) =~= key@);
        }
    }
    let start: usize = if i < key.len() {
        i + 1
    } else {
        0
    };
    let name = address_bytes();
    range_eq(key, start, key.len(), name.as_slice())
}

/// The value of one attribute after the rewrite to `host`.
pub fn rewrite_value(attr: &Attr, host: &str) -> (r: Result<Vec<u8>, EditError>)
    ensures
        bytes_result_view(r) == new_value(attr@, host@),
{
    let mut out: Vec<u8> = Vec::new();
    if !is_address_key(attr.key.as_slice()) {
        append_bytes(&mut out, attr.value.as_slice());
        assert(out@ =~= attr.value@);
        return Ok(out);
    }
    let text = match utf8_text(attr.value.as_slice()) {
        Some(t) => t,
        None => return Err(EditError::Encoding),
    };
    match rewrite_host(text.as_str(), host) {
        Ok(url) => {
            append_bytes(&mut out, url.as_str().as_bytes());
            assert(out@ =~= encode_utf8(url@));
            Ok(out)
        },
        Err(UrlError::InvalidUrl) => Err(EditError::InvalidUrl),
        Err(UrlError::InvalidHost) => Err(EditError::InvalidHost),
    }
}

proof fn lemma_rewrite_attrs_err(attrs: Seq<(Seq<u8>, Seq<u8>)>, k: int, host: Seq<char>)
    requires
        0 <= k <= attrs.len(),
        rewrite_attrs(attrs.subrange(0, k), host) is Err,
    ensures
        rewrite_attrs(attrs, host) == rewrite_attrs(attrs.subrange(0, k), host),
    decreases attrs.len() - k,
{
    if k == attrs.len() {
        assert(attrs.subrange(0, k) =~= attrs);
    } else {
        assert(attrs.drop_last().subrange(0, k) =~= attrs.subrange(0, k));
        lemma_rewrite_attrs_err(attrs.drop_last(), k, host);
    }
}

fn any_address(attrs: &Vec<Attr>) -> (r: bool)
    ensures
        r == has_address(attrs_view(attrs@)),
{
    let ghost view = attrs_view(attrs@);
    let mut i: usize = 0;
    while i < attrs.len()
        invariant
            i <= attrs@.len(),
            view == attrs_view(attrs@),
            forall|j: int| 0 <= j < i ==> !is_address(#[trigger] view[j].0),
        decreases attrs@.len() - i,
    {
        if is_address_key(attrs[i].key.as_slice()) {
            assert(is_address(view[i as int].0));
            return true;
        }
        i = i + 1;
    }
    false
}

/// The view of a result that holds attributes.
pub open spec fn attrs_result_view(r: Result<Vec<Attr>, EditError>) -> Result<
    Seq<(Seq<u8>, Seq<u8>)>,
    EditError,
> {
    match r {
        Ok(v) => Ok(attrs_view(v@)),
        Err(e) => Err(e),
    }
}

/// The attributes of an `endpoint` tag after the rewrite to `host`, in their
/// order: each address gets its URL's host replaced, the rest are copied.
pub fn rewrite_attributes(attrs: &Vec<Attr>, host: &str) -> (r: Result<Vec<Attr>, EditError>)
    ensures
        attrs_result_view(r) == rewrite_attrs(attrs_view(attrs@), host@),
{
    let ghost view = attrs_view(attrs@);
    let mut out: Vec<Attr> = Vec::new();
    assert(attrs_view(out@) =~= seq![]);
    assert(view.subrange(0, 0) =~= seq![]);
    let mut k: usize = 0;
    while k < attrs.len()
        invariant
            k <= attrs@.len(),
            view == attrs_view(attrs@),
            rewrite_attrs(view.subrange(0, k as int), host@) == Ok::<_, EditError>(
                attrs_view(out@),
            ),
        decreases attrs@.len() - k,
    {
        let attr = &attrs[k];
        assert(view.subrange(0, k + 1).drop_last() =~= view.subrange(0, k as int));
        assert(view.subrange(0, k + 1).last() == attr@);
        let value = match rewrite_value(attr, host) {
            Ok(v) => v,
            Err(e) => {
                proof {
                    assert(rewrite_attrs(view.subrange(0, k + 1), host@) == Err::<
                        Seq<(Seq<u8>, Seq<u8>)>,
                        EditError,
                    >(e));
                    lemma_rewrite_attrs_err(view, k + 1, host@);
                }
                return Err(e);
            },
        };
        let mut key: Vec<u8> = Vec::new();
        append_bytes(&mut key, attr.key.as_slice());
        assert(key@ =~= attr.key@);
        let ghost before = attrs_view(out@);
        out.push(Attr { key, value });
        assert(attrs_view(out@) =~= before.push((attr.key@, value@)));
        k = k + 1;
    }
    assert(view.subrange(0, k as int) =~= view);
    Ok(out)
}

/// A tag's content written back from its name and attributes: the name, then
/// ` key="value"` for each attribute, in order.
pub fn write_tag(name: &[u8], attrs: &Vec<Attr>) -> (r: Vec<u8>)
    ensures
        r@ == name@ + attrs_bytes(attrs_view(attrs@)),
{
    let ghost view = attrs_view(attrs@);
    let mut out: Vec<u8> = Vec::new();
    append_bytes(&mut out, name);
    assert(view.subrange(0, 0) =~= seq![]);
    assert(out@ =~= name@ + attrs_bytes(view.subrange(0, 0)));
    let mut k: usize = 0;
    while k < attrs.len()
        invariant
            k <= attrs@.len(),
            view == attrs_view(attrs@),
            out@ == name@ + attrs_bytes(view.subrange(0, k as int)),
        decreases attrs@.len() - k,
    {
        let attr = &attrs[k];
        let ghost before = out@;
        out.push(0x20u8);
        append_bytes(&mut out, attr.key.as_slice());
        out.push(0x3du8);
        out.push(0x22u8);
        append_bytes(&mut out, attr.value.as_slice());
        out.push(0x22u8);
        proof {
            let next = view.subrange(0, k + 1);
            assert(next.drop_last() =~= view.subrange(0, k as int));
            assert(next.last() == attr@);
            assert(out@ =~= before + attr_bytes(attr@));
            assert(out@ =~= name@ + attrs_bytes(next));
        }
        k = k + 1;
    }
    assert(view.subrange(0, k as int) =~= view);
    out
}

/// The content of an `endpoint` tag after the rewrite to `host`.
pub fn rewrite_endpoint(content: &[u8], host: &str) -> (r: Result<Vec<u8>, EditError>)
    ensures
        bytes_result_view(r) == rewrite_tag(content@, host@),
{
    let n = name_len(content);
    let text = match utf8_text(content) {
        Some(t) => t,
        None => return Err(EditError::Encoding),
    };
    let text = text.as_str();
    proof {
        decode_utf8_encode_utf8(content@);
        assert(text.spec_bytes() == content@);
    }
    let attrs = match tag_attributes(text, n) {
        Some(a) => a,
        None => return Err(EditError::Attribute),
    };
    if !any_address(&attrs) {
        let mut out: Vec<u8> = Vec::new();
        append_bytes(&mut out, content);
        assert(out@ =~= content@);
        return Ok(out);
    }
    let new_attrs = rewrite_attributes(&attrs, host)?;
    let mut name: Vec<u8> = Vec::new();
    let mut i: usize = 0;
    while i < n
        invariant
            n <= content@.len(),
            i <= n,
            name@ == content@.subrange(0, i as int),
        decreases n - i,
    {
        name.push(content[i]);
        i = i + 1;
        assert(name@ =~= content@.subrange(0, i as int));
    }
    Ok(write_tag(name.as_slice(), &new_attrs))
}

/// One event after the rewrite to `host`: a self-closing `endpoint` element
/// gets its address rewritten, every other event is copied.
pub fn rewrite_xml_event(e: &XmlEvent, host: &str) -> (r: Result<XmlEvent, EditError>)
    ensures
        event_result_view(r) == rewrite_event(e@, host@),
{
    let n = name_len(e.content.as_slice());
    let endpoint = endpoint_bytes();
    if e.kind == EventKind::Empty && range_eq(e.content.as_slice(), 0, n, endpoint.as_slice()) {
        match rewrite_endpoint(e.content.as_slice(), host) {
            Ok(c) => Ok(XmlEvent { kind: e.kind, content: c }),
            Err(x) => Err(x),
        }
    } else {
        let mut c: Vec<u8> = Vec::new();
        append_bytes(&mut c, e.content.as_slice());
        assert(c@ =~= e.content@);
        Ok(XmlEvent { kind: e.kind, content: c })
    }
}

/// The rewritten document from the `reads`-th event of `input` on, at most
/// `fuel` events more: each event rewritten and written back in turn, up to
/// the end of the document or the first failure. A reader that hands out
/// more events than the input has bytes is taken as failing at its end.
pub open spec fn transform_from(input: Seq<u8>, host: Seq<char>, reads: nat, fuel: nat) -> Result<
    Seq<u8>,
    EditError,
>
    decreases fuel,
{
    match xml_read(input, reads) {
        None => Err(EditError::XmlParse { offset: xml_error_position(input, reads + 1) }),
        Some(e) => if e.0 == EventKind::Eof {
            Ok(seq![])
        } else if fuel == 0 {
            Err(EditError::XmlParse { offset: input.len() as u64 })
        } else {
            match rewrite_event(e, host) {
                Err(x) => Err(x),
                Ok(e2) => match transform_from(input, host, reads + 1, (fuel - 1) as nat) {
                    Err(x) => Err(x),
                    Ok(rest) => Ok(event_bytes(e2) + rest),
                },
            }
        },
    }
}

/// The bytes of the rewritten document, before they are checked as text.
pub open spec fn rewritten_bytes(input: Seq<u8>, host: Seq<char>) -> Result<Seq<u8>, EditError> {
    transform_from(input, host, 0, input.len())
}

/// The rewritten document as text: every `endpoint` element's address
/// pointed at `host`, all else written back as read; it must be UTF-8.
pub open spec fn rewritten_document(input: Seq<u8>, host: Seq<char>) -> Result<
    Seq<char>,
    EditError,
> {
    match rewritten_bytes(input, host) {
        Err(e) => Err(e),
        Ok(out) => if valid_utf8(out) {
            Ok(decode_utf8(out))
        } else {
            Err(EditError::Encoding)
        },
    }
}

/// `out` followed by what `r` holds, or the failure of `r`.
pub open spec fn after(out: Seq<u8>, r: Result<Seq<u8>, EditError>) -> Result<Seq<u8>, EditError> {
    match r {
        Ok(rest) => Ok(out + rest),
        Err(e) => Err(e),
    }
}

/// Rewrites a configuration document so that the address of every `endpoint`
/// element points at `host`, in one pass over its events; on any failure
/// nothing of the output is handed back.
pub fn switch_server(input: &[u8], host: &str) -> (r: Result<String, EditError>)
    ensures
        text_result_view(r) == rewritten_document(input@, host@),
{
    let mut reader = EventReader::new(input);
    let mut out: Vec<u8> = Vec::new();
    let mut steps: usize = 0;
    loop
        invariant_except_break
            reader.input() == input@,
            reader.reads() == steps,
            steps <= input@.len(),
            rewritten_bytes(input@, host@) == after(
                out@,
                transform_from(input@, host@, steps as nat, (input@.len() - steps) as nat),
            ),
        ensures
            rewritten_bytes(input@, host@) == Ok::<_, EditError>(out@),
        decreases input@.len() - steps,
    {
        let ghost fuel = (input@.len() - steps) as nat;
        let ev = match reader.read_event() {
            Some(ev) => ev,
            None => {
                let offset = reader.error_position();
                return Err(EditError::XmlParse { offset });
            },
        };
        if ev.kind == EventKind::Eof {
            assert(out@ + seq![] =~= out@);
            break;
        }
        if steps == input.len() {
            return Err(EditError::XmlParse { offset: input.len() as u64 });
        }
        let next = match rewrite_xml_event(&ev, host) {
            Ok(e2) => e2,
            Err(x) => return Err(x),
        };
        let ghost before = out@;
        write_event(&mut out, &next);
        proof {
            let rest = transform_from(input@, host@, (steps + 1) as nat, (fuel - 1) as nat);
            if rest is Ok {
                assert(before + (event_bytes(next@) + rest->Ok_0) =~= out@ + rest->Ok_0);
            }
        }
        steps = steps + 1;
    }
    match utf8_text(out.as_slice()) {
        Some(text) => Ok(text),
        None => Err(EditError::Encoding),
    }
}

} // verus!
