use vstd::prelude::*;

use crate::config_editor::{
    attr_bytes, attrs_bytes, has_address, is_address, is_endpoint, new_value, rewrite_attrs,
    rewrite_event, rewrite_tag, rewritten_bytes, rewritten_document, transform_from, EditError,
};
use crate::url_host::host_replaced;
use crate::xml::{
    event_bytes, is_xml_space, lemma_name_end, name_end, xml_attributes, xml_error_position,
    xml_read, EventKind,
};
use vstd::utf8::{decode_utf8, encode_utf8, encode_utf8_decode_utf8, encode_utf8_valid_utf8, valid_utf8};

verus! {

/// The events that a reader over `input` hands out from the `reads`-th on, up
/// to the end of the document, at most `fuel` of them; fails as
/// `transform_from` does.
pub open spec fn events_from(input: Seq<u8>, reads: nat, fuel: nat) -> Result<
    Seq<(EventKind, Seq<u8>)>,
    EditError,
>
    decreases fuel,
{
    match xml_read(input, reads) {
        None => Err(EditError::XmlParse { offset: xml_error_position(input, reads + 1) }),
        Some(e) => if e.0 == EventKind::Eof {
            Ok(seq![])
        } else if fuel == 0 {
            Err(EditError::XmlParse { offset: input.len() as u64 })
        } else {
            match events_from(input, reads + 1, (fuel - 1) as nat) {
                Err(x) => Err(x),
                Ok(rest) => Ok(seq![e] + rest),
            }
        },
    }
}

/// The events of a whole document, without the end of the document.
pub open spec fn document_events(input: Seq<u8>) -> Result<Seq<(EventKind, Seq<u8>)>, EditError> {
    events_from(input, 0, input.len())
}

/// Each event rewritten in turn; the first failure is the result where
/// there is one.
pub open spec fn rewrite_events(evs: Seq<(EventKind, Seq<u8>)>, host: Seq<char>) -> Result<
    Seq<(EventKind, Seq<u8>)>,
    EditError,
>
    decreases evs.len(),
{
    if evs.len() == 0 {
        Ok(seq![])
    } else {
        match rewrite_event(evs[0], host) {
            Err(x) => Err(x),
            Ok(e2) => match rewrite_events(evs.drop_first(), host) {
                Err(x) => Err(x),
                Ok(rest) => Ok(seq![e2] + rest),
            },
        }
    }
}

/// A sequence of events written back one after the other.
pub open spec fn events_bytes(evs: Seq<(EventKind, Seq<u8>)>) -> Seq<u8>
    decreases evs.len(),
{
    if evs.len() == 0 {
        seq![]
    } else {
        event_bytes(evs[0]) + events_bytes(evs.drop_first())
    }
}

/// The bytes of rewritten events, or the failure of the rewrite.
pub open spec fn written(r: Result<Seq<(EventKind, Seq<u8>)>, EditError>) -> Result<
    Seq<u8>,
    EditError,
> {
    match r {
        Ok(evs) => Ok(events_bytes(evs)),
        Err(x) => Err(x),
    }
}

proof fn lemma_transform_from(
    input: Seq<u8>,
    host: Seq<char>,
    reads: nat,
    fuel: nat,
    evs: Seq<(EventKind, Seq<u8>)>,
)
    requires
        events_from(input, reads, fuel) == Ok::<_, EditError>(evs),
    ensures
        transform_from(input, host, reads, fuel) == written(rewrite_events(evs, host)),
    decreases fuel,
{
    let e = xml_read(input, reads)->Some_0;
    if e.0 != EventKind::Eof {
        let rest = events_from(input, reads + 1, (fuel - 1) as nat)->Ok_0;
        lemma_transform_from(input, host, reads + 1, (fuel - 1) as nat, rest);
        assert(evs[0] == e);
        assert(evs.drop_first() =~= rest);
        if rewrite_event(e, host) is Ok && rewrite_events(rest, host) is Ok {
            let e2 = rewrite_event(e, host)->Ok_0;
            let out = rewrite_events(rest, host)->Ok_0;
            assert((seq![e2] + out)[0] == e2);
            assert((seq![e2] + out).drop_first() =~= out);
        }
    }
}

/// A document whose events all read is rewritten event by event: the output
/// is the rewritten events written back in the order read, or the first
/// failure of the rewrite.
pub proof fn law_document_is_event_rewrite(input: Seq<u8>, host: Seq<char>)
    requires
        document_events(input) is Ok,
    ensures
        rewritten_bytes(input, host) == written(rewrite_events(document_events(input)->Ok_0, host)),
{
    lemma_transform_from(input, host, 0, input.len(), document_events(input)->Ok_0);
}

proof fn lemma_no_endpoint(evs: Seq<(EventKind, Seq<u8>)>, host: Seq<char>)
    requires
        forall|i: int| 0 <= i < evs.len() ==> !is_endpoint(#[trigger] evs[i]),
    ensures
        rewrite_events(evs, host) == Ok::<_, EditError>(evs),
    decreases evs.len(),
{
    if evs.len() > 0 {
        let rest = evs.drop_first();
        assert forall|i: int| 0 <= i < rest.len() implies !is_endpoint(#[trigger] rest[i]) by {
            assert(rest[i] == evs[i + 1]);
        }
        lemma_no_endpoint(rest, host);
        assert(!is_endpoint(evs[0]));
        assert(rewrite_event(evs[0], host) == Ok::<_, EditError>(evs[0]));
        assert(seq![evs[0]] + rest =~= evs);
        assert(rewrite_events(evs, host) == Ok::<_, EditError>(seq![evs[0]] + rest));
    } else {
        assert(evs =~= seq![]);
    }
}

proof fn lemma_read_failure(input: Seq<u8>, host: Seq<char>, reads: nat, fuel: nat)
    requires
        events_from(input, reads, fuel) is Err,
    ensures
        transform_from(input, host, reads, fuel) is Err,
    decreases fuel,
{
    if xml_read(input, reads) is Some && fuel > 0 {
        lemma_read_failure(input, host, reads + 1, (fuel - 1) as nat);
    }
}

/// A document that the reader fails on is never rewritten: no output comes
/// back, only the first failure in document order.
pub proof fn law_read_failure_gives_no_output(input: Seq<u8>, host: Seq<char>)
    requires
        document_events(input) is Err,
    ensures
        rewritten_document(input, host) is Err,
{
    lemma_read_failure(input, host, 0, input.len());
}

/// A document without `endpoint` elements is written back as it was read:
/// the same events, in the same order.
pub proof fn law_round_trip_without_endpoints(input: Seq<u8>, host: Seq<char>)
    requires
        document_events(input) is Ok,
        forall|i: int|
            0 <= i < document_events(input)->Ok_0.len() ==> !is_endpoint(
                #[trigger] document_events(input)->Ok_0[i],
            ),
    ensures
        rewritten_bytes(input, host) == Ok::<_, EditError>(events_bytes(document_events(input)->Ok_0)),
{
    law_document_is_event_rewrite(input, host);
    lemma_no_endpoint(document_events(input)->Ok_0, host);
}

/// Rewriting a sequence of events keeps its length and order and changes
/// nothing but `endpoint` elements, each of which gets the rewritten tag.
pub proof fn law_only_endpoints_change(
    evs: Seq<(EventKind, Seq<u8>)>,
    host: Seq<char>,
    out: Seq<(EventKind, Seq<u8>)>,
)
    requires
        rewrite_events(evs, host) == Ok::<_, EditError>(out),
    ensures
        out.len() == evs.len(),
        forall|i: int|
            0 <= i < evs.len() ==> (!is_endpoint(#[trigger] evs[i]) ==> out[i] == evs[i]) && (
            is_endpoint(evs[i]) ==> out[i].0 == evs[i].0 && rewrite_tag(evs[i].1, host) == Ok::<
                _,
                EditError,
            >(out[i].1)),
    decreases evs.len(),
{
    if evs.len() > 0 {
        let rest = evs.drop_first();
        let e2 = rewrite_event(evs[0], host)->Ok_0;
        let out_rest = rewrite_events(rest, host)->Ok_0;
        law_only_endpoints_change(rest, host, out_rest);
        assert(out == seq![e2] + out_rest);
        assert forall|i: int| 0 <= i < evs.len() implies (!is_endpoint(#[trigger] evs[i])
            ==> out[i] == evs[i]) && (is_endpoint(evs[i]) ==> out[i].0 == evs[i].0 && rewrite_tag(
            evs[i].1,
            host,
        ) == Ok::<_, EditError>(out[i].1)) by {
            if i > 0 {
                assert(evs[i] == rest[i - 1]);
                assert(out[i] == out_rest[i - 1]);
            }
        }
    }
}

/// The rewrite of an attribute list keeps the keys and their order; each
/// value is what `new_value` gives.
pub proof fn law_attrs_keep_keys(
    attrs: Seq<(Seq<u8>, Seq<u8>)>,
    host: Seq<char>,
    new_attrs: Seq<(Seq<u8>, Seq<u8>)>,
)
    requires
        rewrite_attrs(attrs, host) == Ok::<_, EditError>(new_attrs),
    ensures
        new_attrs.len() == attrs.len(),
        forall|j: int|
            0 <= j < attrs.len() ==> #[trigger] new_attrs[j].0 == attrs[j].0 && new_value(
                attrs[j],
                host,
            ) == Ok::<_, EditError>(new_attrs[j].1),
    decreases attrs.len(),
{
    if attrs.len() > 0 {
        let done = rewrite_attrs(attrs.drop_last(), host)->Ok_0;
        law_attrs_keep_keys(attrs.drop_last(), host, done);
        assert forall|j: int| 0 <= j < attrs.len() implies #[trigger] new_attrs[j].0 == attrs[j].0
            && new_value(attrs[j], host) == Ok::<_, EditError>(new_attrs[j].1) by {
            if j < attrs.len() - 1 {
                assert(attrs[j] == attrs.drop_last()[j]);
                assert(new_attrs[j] == done[j]);
            }
        }
    }
}

/// The value that an address gets: the URL it holds, read as UTF-8, with its
/// host replaced, written as UTF-8.
pub open spec fn address_rewritten(value: Seq<u8>, host: Seq<char>, new_value: Seq<u8>) -> bool {
    &&& valid_utf8(value)
    &&& host_replaced(decode_utf8(value), host) is Ok
    &&& new_value == encode_utf8(host_replaced(decode_utf8(value), host)->Ok_0)
}

/// `new_attrs` keeps the keys and places of `attrs`; the values of attributes
/// that are not addresses stay, addresses are rewritten.
pub open spec fn only_addresses_rewritten(
    attrs: Seq<(Seq<u8>, Seq<u8>)>,
    host: Seq<char>,
    new_attrs: Seq<(Seq<u8>, Seq<u8>)>,
) -> bool {
    &&& new_attrs.len() == attrs.len()
    &&& forall|j: int|
        0 <= j < attrs.len() ==> #[trigger] new_attrs[j].0 == attrs[j].0 && (!is_address(
            attrs[j].0,
        ) ==> new_attrs[j].1 == attrs[j].1) && (is_address(attrs[j].0) ==> address_rewritten(
            attrs[j].1,
            host,
            new_attrs[j].1,
        ))
}

/// In a rewritten `endpoint` tag that has an address, every attribute keeps
/// its key and place; an attribute that is not an address keeps its value;
/// an address gets the URL with its host replaced, as UTF-8.
pub proof fn law_targeted_attributes(content: Seq<u8>, host: Seq<char>, new_content: Seq<u8>)
    requires
        rewrite_tag(content, host) == Ok::<_, EditError>(new_content),
        xml_attributes(content, name_end(content)) is Some,
        has_address(xml_attributes(content, name_end(content))->Some_0),
    ensures
        name_end(content) <= content.len(),
        exists|new_attrs: Seq<(Seq<u8>, Seq<u8>)>|
            new_content == content.subrange(0, name_end(content) as int) + attrs_bytes(new_attrs)
                && #[trigger] only_addresses_rewritten(
                xml_attributes(content, name_end(content))->Some_0,
                host,
                new_attrs,
            ),
{
    lemma_name_end_facts(content);
    let attrs = xml_attributes(content, name_end(content))->Some_0;
    let new_attrs = rewrite_attrs(attrs, host)->Ok_0;
    law_attrs_keep_keys(attrs, host, new_attrs);
    assert forall|j: int| 0 <= j < attrs.len() implies #[trigger] new_attrs[j].0 == attrs[j].0 && (
    !is_address(attrs[j].0) ==> new_attrs[j].1 == attrs[j].1) && (is_address(attrs[j].0)
        ==> address_rewritten(attrs[j].1, host, new_attrs[j].1)) by {
        assert(new_attrs[j].0 == attrs[j].0);
        assert(new_value(attrs[j], host) == Ok::<_, EditError>(new_attrs[j].1));
    }
    assert(only_addresses_rewritten(attrs, host, new_attrs));
}

/// An `endpoint` element without an address passes through unchanged.
pub proof fn law_missing_address_passes(content: Seq<u8>, host: Seq<char>)
    requires
        valid_utf8(content),
        xml_attributes(content, name_end(content)) is Some,
        !has_address(xml_attributes(content, name_end(content))->Some_0),
    ensures
        rewrite_event((EventKind::Empty, content), host) == Ok::<_, EditError>(
            (EventKind::Empty, content),
        ),
{
}

/// Rewriting an attribute list that the rewrite produced changes nothing,
/// where setting the new host on each rewritten address gives that address.
pub proof fn law_attrs_idempotent(
    attrs: Seq<(Seq<u8>, Seq<u8>)>,
    host: Seq<char>,
    new_attrs: Seq<(Seq<u8>, Seq<u8>)>,
)
    requires
        rewrite_attrs(attrs, host) == Ok::<_, EditError>(new_attrs),
        forall|j: int|
            0 <= j < new_attrs.len() && is_address(#[trigger] new_attrs[j].0) ==> host_replaced(
                decode_utf8(new_attrs[j].1),
                host,
            ) == Ok::<_, crate::url_host::UrlError>(decode_utf8(new_attrs[j].1)),
    ensures
        rewrite_attrs(new_attrs, host) == Ok::<_, EditError>(new_attrs),
    decreases attrs.len(),
{
    if attrs.len() > 0 {
        let done = rewrite_attrs(attrs.drop_last(), host)->Ok_0;
        assert(new_attrs.drop_last() =~= done);
        assert forall|j: int|
            0 <= j < done.len() && is_address(#[trigger] done[j].0) implies host_replaced(
            decode_utf8(done[j].1),
            host,
        ) == Ok::<_, crate::url_host::UrlError>(decode_utf8(done[j].1)) by {
            assert(done[j] == new_attrs[j]);
        }
        law_attrs_idempotent(attrs.drop_last(), host, done);
        let last = new_attrs.last();
        if is_address(last.0) {
            let t = host_replaced(decode_utf8(attrs.last().1), host)->Ok_0;
            encode_utf8_valid_utf8(t);
            encode_utf8_decode_utf8(t);
            assert(new_attrs[new_attrs.len() - 1] == last);
        }
        assert(done.push(last) =~= new_attrs);
    }
}

proof fn lemma_name_end_facts(content: Seq<u8>)
    ensures
        name_end(content) <= content.len(),
        forall|j: int| 0 <= j < name_end(content) ==> !is_xml_space(#[trigger] content[j]),
        name_end(content) == content.len() || is_xml_space(content[name_end(content) as int]),
    decreases content.len(),
{
    if content.len() > 0 && !is_xml_space(content[0]) {
        let rest = content.drop_first();
        lemma_name_end_facts(rest);
        assert forall|j: int| 0 <= j < name_end(content) implies !is_xml_space(
            #[trigger] content[j],
        ) by {
            if j > 0 {
                assert(content[j] == rest[j - 1]);
            }
        }
    }
}

/// Rewriting an `endpoint` tag that the rewrite produced changes nothing,
/// where the reader reads back the attributes that were written, the written
/// tag is UTF-8, and setting the new host on each rewritten address gives
/// that address.
pub proof fn law_idempotent(e: (EventKind, Seq<u8>), host: Seq<char>, e2: (EventKind, Seq<u8>))
    requires
        rewrite_event(e, host) == Ok::<_, EditError>(e2),
        is_endpoint(e) && has_address(xml_attributes(e.1, name_end(e.1))->Some_0) ==> ({
            let new_attrs = rewrite_attrs(xml_attributes(e.1, name_end(e.1))->Some_0, host)->Ok_0;
            &&& valid_utf8(e2.1)
            &&& xml_attributes(e2.1, name_end(e.1)) == Some(new_attrs)
            &&& forall|j: int|
                0 <= j < new_attrs.len() && is_address(#[trigger] new_attrs[j].0) ==> host_replaced(
                    decode_utf8(new_attrs[j].1),
                    host,
                ) == Ok::<_, crate::url_host::UrlError>(decode_utf8(new_attrs[j].1))
        }),
    ensures
        rewrite_event(e2, host) == Ok::<_, EditError>(e2),
{
    if is_endpoint(e) {
        let c = e.1;
        let n = name_end(c);
        let attrs = xml_attributes(c, n)->Some_0;
        if has_address(attrs) {
            let new_attrs = rewrite_attrs(attrs, host)->Ok_0;
            law_attrs_keep_keys(attrs, host, new_attrs);
            law_attrs_idempotent(attrs, host, new_attrs);
            let c2 = e2.1;
            assert(c2 == c.subrange(0, n as int) + attrs_bytes(new_attrs));
            lemma_name_end_facts(c);
            // the first attribute starts with a space right after the name
            let j = choose|j: int| 0 <= j < attrs.len() && is_address(#[trigger] attrs[j].0);
            assert(new_attrs[j].0 == attrs[j].0);
            lemma_attrs_bytes_start(new_attrs);
            assert(c2.subrange(0, n as int) =~= c.subrange(0, n as int));
            assert(c2[n as int] == 0x20u8);
            lemma_name_end(c2, n as int);
            assert(has_address(new_attrs));
            assert(c2.subrange(0, name_end(c2) as int) + attrs_bytes(new_attrs) =~= c2);
        }
    }
}

proof fn lemma_attrs_bytes_start(attrs: Seq<(Seq<u8>, Seq<u8>)>)
    requires
        attrs.len() > 0,
    ensures
        attrs_bytes(attrs).len() > 0,
        attrs_bytes(attrs)[0] == 0x20u8,
    decreases attrs.len(),
{
    if attrs.len() > 1 {
        lemma_attrs_bytes_start(attrs.drop_last());
        let a = attrs_bytes(attrs.drop_last());
        assert((a + attr_bytes(attrs.last()))[0] == a[0]);
    } else {
        assert(attrs.drop_last().len() == 0);
        assert(attrs_bytes(attrs.drop_last()) == Seq::<u8>::empty());
        assert(attrs_bytes(attrs) =~= attr_bytes(attrs.last()));
    }
}

} // verus!
