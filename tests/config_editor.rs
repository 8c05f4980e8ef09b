use server_switcher::config_editor::{
    is_address_key, rewrite_attributes, rewrite_endpoint, rewrite_xml_event, switch_server,
    write_tag, EditError,
};
use server_switcher::xml::{name_len, write_event, Attr, EventKind, XmlEvent};

fn rewrite(doc: &str, host: &str) -> Result<String, EditError> {
    switch_server(doc.as_bytes(), host)
}

#[test]
fn scenario_single_endpoint() {
    let input = r#"<config><endpoint address="http://userarea.zenno.io/svc"/></config>"#;
    let expected = r#"<config><endpoint address="http://userarea.zennolab.com/svc"/></config>"#;
    assert_eq!(rewrite(input, "userarea.zennolab.com"), Ok(expected.to_string()));
}

#[test]
fn scenario_one_endpoint_without_address() {
    let input = "<config>\n  <endpoint address=\"http://old.example.com/a\" name=\"x\"/>\n  <endpoint name='y' binding=\"b\"/>\n</config>";
    let expected = "<config>\n  <endpoint address=\"http://new.example.org/a\" name=\"x\"/>\n  <endpoint name='y' binding=\"b\"/>\n</config>";
    assert_eq!(rewrite(input, "new.example.org"), Ok(expected.to_string()));
}

#[test]
fn document_without_endpoints_is_kept() {
    let input = "<?xml version=\"1.0\" encoding=\"utf-8\"?>\n<!DOCTYPE config>\n<!-- comment -->\n<config a='1' b=\"2\">\n  <item key=\"k\">text &amp; more</item>\n  <![CDATA[<raw>]]>\n  <?pi data?>\n  <empty/>\n</config>\n";
    assert_eq!(rewrite(input, "new.host"), Ok(input.to_string()));
}

#[test]
fn only_targeted_attributes_change() {
    let input = "<c><system.serviceModel><client>\
<endpoint address='http://a.old.io:81/x?q=1' binding=\"basic\" contract='C'/>\
<endpoint binding=\"b2\" address=\"https://b.old.io/y\"/>\
<other address=\"http://keep.me/\"/>\
<endpoint2 address=\"http://keep.too/\"/>\
</client></system.serviceModel></c>";
    let expected = "<c><system.serviceModel><client>\
<endpoint address=\"http://new.host:81/x?q=1\" binding=\"basic\" contract=\"C\"/>\
<endpoint binding=\"b2\" address=\"https://new.host/y\"/>\
<other address=\"http://keep.me/\"/>\
<endpoint2 address=\"http://keep.too/\"/>\
</client></system.serviceModel></c>";
    assert_eq!(rewrite(input, "new.host"), Ok(expected.to_string()));
}

#[test]
fn rewrite_is_idempotent() {
    let input = "<config><endpoint address=\"http://userarea.zenno.io/svc\" x='1'/><endpoint y=\"2\"/></config>";
    let once = rewrite(input, "userarea-us.zennolab.com").unwrap();
    let twice = rewrite(&once, "userarea-us.zennolab.com").unwrap();
    assert_eq!(once, twice);
}

#[test]
fn missing_address_passes_unchanged() {
    let input = "<config><endpoint  name = 'n'   binding=\"b\" /></config>";
    assert_eq!(rewrite(input, "h.example.com"), Ok(input.to_string()));
}

#[test]
fn prefixed_address_is_rewritten() {
    let input = "<config><endpoint ns:address=\"http://old.io/p\"/></config>";
    let expected = "<config><endpoint ns:address=\"http://h.example.com/p\"/></config>";
    assert_eq!(rewrite(input, "h.example.com"), Ok(expected.to_string()));
}

#[test]
fn unclosed_tag_is_a_parse_error() {
    let input = "<config><endpoint address=\"http://userarea.zenno.io/svc\"";
    assert!(matches!(rewrite(input, "new.host"), Err(EditError::XmlParse { .. })));
}

#[test]
fn mismatched_end_tag_is_a_parse_error() {
    let input = "<config><a></b></config>";
    assert!(matches!(rewrite(input, "new.host"), Err(EditError::XmlParse { .. })));
}

#[test]
fn address_that_is_not_a_url() {
    let input = "<config><endpoint address=\"not a url\"/></config>";
    assert_eq!(rewrite(input, "new.host"), Err(EditError::InvalidUrl));
}

#[test]
fn host_that_is_refused() {
    let input = "<config><endpoint address=\"http://old.host/\"/></config>";
    assert_eq!(rewrite(input, "bad host"), Err(EditError::InvalidHost));
    let input = "<config><endpoint address=\"mailto:someone@old.host\"/></config>";
    assert_eq!(rewrite(input, "new.host"), Err(EditError::InvalidHost));
}

#[test]
fn repeated_attribute_is_refused() {
    let input = "<config><endpoint address=\"http://a/\" address=\"http://b/\"/></config>";
    assert_eq!(rewrite(input, "new.host"), Err(EditError::Attribute));
}

#[test]
fn output_that_is_not_utf8_is_refused() {
    let mut input = b"<config><item>".to_vec();
    input.push(0xff);
    input.extend_from_slice(b"</item><endpoint address=\"http://a.b/\"/></config>");
    assert_eq!(switch_server(&input, "new.host"), Err(EditError::Encoding));
}

#[test]
fn empty_document() {
    assert_eq!(rewrite("", "new.host"), Ok(String::new()));
}

#[test]
fn endpoint_tag_rewrite() {
    let content = b"endpoint a='1' address='http://x.y/z'";
    let out = rewrite_endpoint(content, "q.r").unwrap();
    assert_eq!(out, b"endpoint a=\"1\" address=\"http://q.r/z\"".to_vec());
}

#[test]
fn address_keys() {
    assert!(is_address_key(b"address"));
    assert!(is_address_key(b"x:address"));
    assert!(!is_address_key(b"addresses"));
    assert!(!is_address_key(b"x:y:address"));
    assert!(!is_address_key(b""));
}

#[test]
fn tag_name_length() {
    assert_eq!(name_len(b"endpoint address='x'"), 8);
    assert_eq!(name_len(b"a\tb"), 1);
    assert_eq!(name_len(b"abc"), 3);
    assert_eq!(name_len(b" abc"), 0);
}

#[test]
fn events_are_written_with_their_delimiters() {
    let cases: Vec<(EventKind, &[u8], &[u8])> = vec![
        (EventKind::Start, b"a x='1'", b"<a x='1'>"),
        (EventKind::End, b"a", b"</a>"),
        (EventKind::Empty, b"b", b"<b/>"),
        (EventKind::Text, b"t&amp;", b"t&amp;"),
        (EventKind::CData, b"<x>", b"<![CDATA[<x>]]>"),
        (EventKind::Comment, b" c ", b"<!-- c -->"),
        (EventKind::Decl, b"xml version=\"1.0\"", b"<?xml version=\"1.0\"?>"),
        (EventKind::PI, b"pi d", b"<?pi d?>"),
        (EventKind::DocType, b"html", b"<!DOCTYPE html>"),
        (EventKind::Eof, b"", b""),
    ];
    for (kind, content, expected) in cases {
        let mut out = b"#".to_vec();
        write_event(&mut out, &XmlEvent { kind, content: content.to_vec() });
        let mut want = b"#".to_vec();
        want.extend_from_slice(expected);
        assert_eq!(out, want);
    }
}

#[test]
fn non_ascii_text_and_address() {
    let input = "<config><!-- адрес сервера --><endpoint address=\"http://старый.рф/путь\"/></config>";
    let expected = "<config><!-- адрес сервера --><endpoint address=\"http://new.host/%D0%BF%D1%83%D1%82%D1%8C\"/></config>";
    assert_eq!(rewrite(input, "new.host"), Ok(expected.to_string()));
}

#[test]
fn address_that_is_not_utf8() {
    let mut input = b"<config><endpoint address=\"http://a.b/".to_vec();
    input.push(0xfe);
    input.extend_from_slice(b"\"/></config>");
    assert_eq!(switch_server(&input, "new.host"), Err(EditError::Encoding));
}

#[test]
fn first_failure_in_document_order_wins() {
    let input = "<config><endpoint address=\"bad\"/><a></b></config>";
    assert_eq!(rewrite(input, "new.host"), Err(EditError::InvalidUrl));
    let input = "<config><a></b><endpoint address=\"bad\"/></config>";
    assert!(matches!(rewrite(input, "new.host"), Err(EditError::XmlParse { .. })));
}

fn attr(k: &str, v: &str) -> Attr {
    Attr { key: k.as_bytes().to_vec(), value: v.as_bytes().to_vec() }
}

#[test]
fn tags_are_written_with_double_quotes() {
    let attrs = vec![attr("a", "1"), attr("address", "http://x/")];
    assert_eq!(write_tag(b"endpoint", &attrs), b"endpoint a=\"1\" address=\"http://x/\"".to_vec());
    assert_eq!(write_tag(b"e", &Vec::new()), b"e".to_vec());
}

#[test]
fn attribute_lists_are_rewritten_in_place() {
    let attrs = vec![attr("name", "n"), attr("address", "http://old.io:9/p"), attr("b", "x")];
    let out = rewrite_attributes(&attrs, "new.io").unwrap();
    let pairs: Vec<(Vec<u8>, Vec<u8>)> = out.into_iter().map(|a| (a.key, a.value)).collect();
    assert_eq!(
        pairs,
        vec![
            (b"name".to_vec(), b"n".to_vec()),
            (b"address".to_vec(), b"http://new.io:9/p".to_vec()),
            (b"b".to_vec(), b"x".to_vec()),
        ]
    );
    let bad = vec![attr("address", "nope"), attr("address", "http://a/")];
    assert_eq!(rewrite_attributes(&bad, "new.io").unwrap_err(), EditError::InvalidUrl);
}

#[test]
fn only_endpoint_events_are_rewritten() {
    let start = XmlEvent { kind: EventKind::Start, content: b"endpoint address='http://a.b/'".to_vec() };
    let out = rewrite_xml_event(&start, "c.d").unwrap();
    assert_eq!((out.kind, out.content), (EventKind::Start, b"endpoint address='http://a.b/'".to_vec()));
    let empty = XmlEvent { kind: EventKind::Empty, content: b"endpoint address='http://a.b/'".to_vec() };
    let out = rewrite_xml_event(&empty, "c.d").unwrap();
    assert_eq!((out.kind, out.content), (EventKind::Empty, b"endpoint address=\"http://c.d/\"".to_vec()));
}
