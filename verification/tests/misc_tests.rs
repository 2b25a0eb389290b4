//! Selection state, utility and JSON canonicalization tests.

use slumber::error::{ChainError, QueryError, TemplateError, TriggeredRequestError};
use slumber::ident::Identifier;
use slumber::json::{canonical_text, content_type_of, decode_json, ContentType, JsonValue};
use slumber::store::{Exchange, Response, Store};
use slumber::select::{Callback, NoCallback, SelectState, SelectStateBuilder};
use slumber::util::{doc_link, Mapping, MaybeStr, Replaceable};

fn chars(s: &str) -> Vec<char> {
    s.chars().collect()
}

type CharSelect = SelectState<char, usize, NoCallback, NoCallback>;

#[test]
fn test_navigation() {
    let mut select: CharSelect = CharSelect::builder(vec!['a', 'b', 'c']).build();
    assert_eq!(select.selected(), Some(&'a'));
    select.next();
    assert_eq!(select.selected(), Some(&'b'));
    select.previous();
    assert_eq!(select.selected(), Some(&'a'));
    // wrapping at both ends
    select.previous();
    assert_eq!(select.selected(), Some(&'c'));
    select.next();
    assert_eq!(select.selected(), Some(&'a'));
}

/// A callback that marks the item it fires on by upper-casing it.
struct Marker;

impl Callback<char> for Marker {
    fn on_item(&mut self, item: &mut char) {
        *item = item.to_ascii_uppercase();
    }
}

#[test]
fn test_on_select() {
    let builder: SelectStateBuilder<char, usize, NoCallback, NoCallback> =
        CharSelect::builder(vec!['a', 'b', 'c']);
    let mut select = builder.on_select(Marker).build();
    // the index backend starts at zero, so building changes nothing
    assert_eq!(select.items(), &vec!['a', 'b', 'c']);
    select.next();
    assert_eq!(select.items(), &vec!['a', 'B', 'c']);
    // re-selecting the same index does not fire again
    select.select(&'B');
    assert_eq!(select.items(), &vec!['a', 'B', 'c']);
}

#[test]
fn test_on_submit() {
    let builder: SelectStateBuilder<char, usize, NoCallback, NoCallback> =
        CharSelect::builder(vec!['a', 'b', 'c']);
    let mut select = builder.on_submit(Marker).build();
    select.next();
    select.submit();
    assert_eq!(select.items(), &vec!['a', 'B', 'c']);
}

#[test]
fn test_preselect() {
    let select: CharSelect = CharSelect::builder(vec!['a', 'b', 'c']).preselect(&'b').build();
    assert_eq!(select.selected_index(), Some(1));
    let select: CharSelect =
        CharSelect::builder(vec!['a', 'b', 'c']).preselect_opt(Some(&'c')).build();
    assert_eq!(select.selected_index(), Some(2));
    let select: CharSelect =
        CharSelect::builder(vec!['a', 'b', 'c']).preselect_opt(None::<&char>).build();
    assert_eq!(select.selected_index(), Some(0));
}

#[test]
fn test_select_by_value() {
    let mut select: CharSelect = CharSelect::builder(vec!['a', 'b', 'c']).build();
    select.select(&'c');
    assert_eq!(select.selected_index(), Some(2));
    select.select(&'z');
    assert_eq!(select.selected_index(), Some(2));
}

#[test]
fn test_empty_list_has_no_selection() {
    let mut select: CharSelect = CharSelect::builder(Vec::new()).build();
    assert_eq!(select.selected(), None);
    select.next();
    assert_eq!(select.selected(), None);
}

#[test]
fn test_doc_link() {
    assert_eq!(
        doc_link("api/chain"),
        "https://slumber.lucaspickering.me/book/api/chain.html"
    );
}

#[test]
fn test_mapping() {
    let table: &[(u8, &[&str])] = &[
        (1, &["one", "uno"]),
        (2, &["two"]),
    ];
    let mapping = Mapping::new(table);
    assert_eq!(mapping.get("one"), Some(1));
    assert_eq!(mapping.get("uno"), Some(1));
    assert_eq!(mapping.get("two"), Some(2));
    assert_eq!(mapping.get("three"), None);
    assert_eq!(mapping.get_label(2), "two");
    assert_eq!(mapping.get_label(1), "one");
    let all = mapping.all_strings();
    assert_eq!(all, vec!["one", "uno", "two"]);
}

#[test]
fn test_replaceable() {
    let mut cell = Replaceable::new(41u64);
    assert_eq!(*cell.get(), 41);
    cell.replace(increment);
    assert_eq!(*cell.get(), 42);
}

fn increment(x: u64) -> u64 {
    x.wrapping_add(1)
}

#[test]
fn test_maybe_str() {
    let text = MaybeStr::new(b"hello".to_vec());
    assert_eq!(text.to_text(), "hello");
    let binary = MaybeStr::new(vec![0xc3, 0x28, 0x00]);
    assert_eq!(binary.to_text(), "c3 28 00");
}

#[test]
fn test_decode_json_and_canonical_text() {
    let v = decode_json(&br#"{"b":[1,2],"s":"x"}"#.to_vec()).unwrap();
    match &v {
        JsonValue::Object(members) => {
            assert_eq!(members.len(), 2);
            assert_eq!(members[0].0, "b");
        },
        other => panic!("expected an object, got {other:?}"),
    }
    assert_eq!(canonical_text(&v), r#"{"b":[1,2],"s":"x"}"#);
    // a string stringifies without quotes
    assert_eq!(canonical_text(&JsonValue::Str("plain".to_string())), "plain");
    // escapes are reintroduced inside documents
    let quoted = decode_json(&br#"["a\"b"]"#.to_vec()).unwrap();
    assert_eq!(canonical_text(&quoted), r#"["a\"b"]"#);
    // invalid documents fail
    assert!(decode_json(&b"not json!".to_vec()).is_err());
}

#[test]
fn test_content_type_of() {
    assert_eq!(content_type_of(&chars("application/json")), Some(ContentType::Json));
    assert_eq!(
        content_type_of(&chars("application/vnd.api+json; charset=utf-8")),
        Some(ContentType::Json)
    );
    assert_eq!(content_type_of(&chars("text/plain")), None);
    assert_eq!(content_type_of(&chars("")), None);
}

#[test]
fn test_store_read_your_writes() {
    let id = Identifier::parse(&chars("recipe1")).unwrap();
    let mut store = Store::new();
    assert!(store.get_latest(&chars("recipe1")).is_none());
    store.insert_exchange(Exchange {
        recipe_id: id.clone(),
        response: Response { status: 200, headers: Vec::new(), body: b"first".to_vec() },
        end_time: 1,
    });
    store.insert_exchange(Exchange {
        recipe_id: id.clone(),
        response: Response { status: 200, headers: Vec::new(), body: b"second".to_vec() },
        end_time: 2,
    });
    let latest = store.get_latest(&chars("recipe1")).unwrap();
    assert_eq!(latest.response.body, b"second".to_vec());
    assert!(store.get_latest(&chars("other")).is_none());
}

#[test]
fn test_error_messages() {
    let id = Identifier::parse(&chars("chain1")).unwrap();
    assert_eq!(TemplateError::RecursionLimit.message(),
        "Template recursion limit reached; cannot render more than 10 nested templates");
    assert_eq!(TemplateError::NoProfileSelected.message(), "No profile selected");
    let err = TemplateError::Chain {
        chain_id: id.clone(),
        error: ChainError::ChainUnknown(id.clone()),
    };
    assert_eq!(err.message(), "Resolving chain `chain1`: Unknown chain: chain1");
    assert!(ChainError::Query(QueryError::NoResults).message().contains(
        "Expected exactly one result"
    ));
    assert!(TriggeredRequestError::NotAllowed.message().contains("not allowed"));
    // the trigger-disabled probe walks the cause chain
    let wrapped = TemplateError::FieldNested {
        field: "f".to_string(),
        error: Box::new(TemplateError::Chain {
            chain_id: id.clone(),
            error: ChainError::Trigger {
                recipe_id: id,
                error: TriggeredRequestError::NotAllowed,
            },
        }),
    };
    assert!(wrapped.has_trigger_disabled_error());
    assert!(!TemplateError::RecursionLimit.has_trigger_disabled_error());
}
