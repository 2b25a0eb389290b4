//! Parsing, serialization and identifier tests.

use slumber::ident::Identifier;
use slumber::parse::{InputChunk, TemplateKey};
use slumber::selector::Selector;
use slumber::template::Template;

fn chars(s: &str) -> Vec<char> {
    s.chars().collect()
}

fn ident(s: &str) -> Identifier {
    Identifier::parse(&chars(s)).unwrap()
}

#[test]
fn identifier_accepts_allowed_characters() {
    assert!(Identifier::parse(&chars("user_id-2")).is_some());
    assert!(Identifier::parse(&chars("A")).is_some());
    assert!(Identifier::parse(&chars("")).is_none());
    assert!(Identifier::parse(&chars("user id")).is_none());
    assert!(Identifier::parse(&chars("chains.x")).is_none());
}

#[test]
fn parse_empty_is_no_chunks() {
    let t = Template::parse("").unwrap();
    assert_eq!(t.chunks().len(), 0);
}

#[test]
fn parse_plain_text_is_one_raw_chunk() {
    let t = Template::parse("plain text").unwrap();
    assert_eq!(t.chunks().len(), 1);
    match &t.chunks()[0] {
        InputChunk::Raw(s) => assert_eq!(s, "plain text"),
        _ => panic!("expected raw chunk"),
    }
}

#[test]
fn parse_recognizes_key_kinds() {
    let t = Template::parse("{{field}}{{chains.c1}}{{env.HOME}}").unwrap();
    assert_eq!(t.chunks().len(), 3);
    match &t.chunks()[0] {
        InputChunk::Key(TemplateKey::Field(id)) => assert_eq!(*id, ident("field")),
        _ => panic!("expected field key"),
    }
    match &t.chunks()[1] {
        InputChunk::Key(TemplateKey::Chain(id)) => assert_eq!(*id, ident("c1")),
        _ => panic!("expected chain key"),
    }
    match &t.chunks()[2] {
        InputChunk::Key(TemplateKey::Environment(id)) => assert_eq!(*id, ident("HOME")),
        _ => panic!("expected environment key"),
    }
}

#[test]
fn parse_coalesces_literals_and_escapes() {
    let t = Template::parse(r"a\{{x}}b").unwrap();
    assert_eq!(t.chunks().len(), 1);
    match &t.chunks()[0] {
        InputChunk::Raw(s) => assert_eq!(s, "a{{x}}b"),
        _ => panic!("expected raw chunk"),
    }
}

#[test]
fn parse_keeps_other_backslashes() {
    let t = Template::parse(r"a\nb").unwrap();
    match &t.chunks()[0] {
        InputChunk::Raw(s) => assert_eq!(s, "a\\nb"),
        _ => panic!("expected raw chunk"),
    }
}

#[test]
fn parse_rejects_malformed_keys() {
    assert!(Template::parse("{{unterminated").is_err());
    assert!(Template::parse("{{bad key}}").is_err());
    assert!(Template::parse("{{}}").is_err());
    assert!(Template::parse("{{chains.}}").is_err());
    assert!(Template::parse("{{a.b}}").is_err());
}

#[test]
fn parse_error_reports_position() {
    let err = Template::parse("abc{{oops").unwrap_err();
    let msg = err.message();
    assert!(msg.contains("position"), "{msg}");
    assert!(msg.contains("3"), "{msg}");
}

#[test]
fn to_source_round_trips_keys_and_text() {
    for source in [
        "",
        "plain",
        "a {{field}} b",
        "{{chains.c1}}{{env.HOME}}",
        "with {{ two braces",
        "{{{x}}",
    ] {
        let parsed = match Template::parse(source) {
            Ok(t) => t,
            Err(_) => continue,
        };
        let serialized = parsed.to_source();
        let reparsed = Template::parse(&serialized).unwrap();
        assert_eq!(parsed, reparsed, "source {source:?} serialized {serialized:?}");
    }
}

#[test]
fn to_source_escapes_literal_braces() {
    let parsed = Template::parse(r"keep \{{this}} raw").unwrap();
    let serialized = parsed.to_source();
    assert_eq!(serialized, r"keep \{{this}} raw");
    assert_eq!(Template::parse(&serialized).unwrap(), parsed);
}

#[test]
fn raw_never_parses() {
    let t = Template::raw("{{not_a_key}}".to_string());
    assert_eq!(t.chunks().len(), 1);
    match &t.chunks()[0] {
        InputChunk::Raw(s) => assert_eq!(s, "{{not_a_key}}"),
        _ => panic!("expected raw chunk"),
    }
    // the canonical source form of a raw template re-escapes the braces
    let serialized = t.to_source();
    assert_eq!(serialized, r"\{{not_a_key}}");
    assert_eq!(Template::parse(&serialized).unwrap(), t);
}

#[test]
fn selector_parse_recognizes_steps() {
    assert!(Selector::parse("$").is_some());
    assert!(Selector::parse("$.name").is_some());
    assert!(Selector::parse("$.a.b").is_some());
    assert!(Selector::parse("$.*").is_some());
    assert!(Selector::parse("").is_none());
    assert!(Selector::parse("name").is_none());
    assert!(Selector::parse("$.").is_none());
    assert!(Selector::parse("$.a..b").is_none());
}
