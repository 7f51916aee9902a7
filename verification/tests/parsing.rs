use jmap_import::request::{ImportEmail, ImportEmailRequest};
use jmap_import::tokens::{ParseError, Token, TokenReader};
use jmap_import::types::MaybeReference;

fn s(x: &str) -> Token {
    Token::Str(x.to_string())
}

/// Tokens of `{accountId:"A1", emails:{"c1":{blobId:"B1",
/// mailboxIds:["M1"], keywords:["$seen"]}}}`.
fn minimal_request_tokens() -> Vec<Token> {
    vec![
        Token::DictStart,
        s("accountId"),
        s("A1"),
        s("emails"),
        Token::DictStart,
        s("c1"),
        Token::DictStart,
        s("blobId"),
        s("B1"),
        s("mailboxIds"),
        Token::ArrayStart,
        s("M1"),
        Token::ArrayEnd,
        s("keywords"),
        Token::ArrayStart,
        s("$seen"),
        Token::ArrayEnd,
        Token::DictEnd,
        Token::DictEnd,
        Token::DictEnd,
    ]
}

fn parse_ok(tokens: Vec<Token>) -> ImportEmailRequest {
    let mut reader = TokenReader::new(tokens);
    let r = ImportEmailRequest::parse(&mut reader);
    match r {
        Ok(req) => req,
        Err(e) => panic!("parse failed: {:?}", e),
    }
}

fn parse_err(tokens: Vec<Token>) -> ParseError {
    let mut reader = TokenReader::new(tokens);
    match ImportEmailRequest::parse(&mut reader) {
        Ok(_) => panic!("parse unexpectedly succeeded"),
        Err(e) => e,
    }
}

#[test]
fn parses_minimal_request() {
    let req = parse_ok(minimal_request_tokens());
    assert_eq!(req.account_id, "A1");
    assert!(req.if_in_state.is_none());
    assert_eq!(req.emails.len(), 1);
    assert_eq!(req.emails.key_at(0), "c1");
    let item = req.emails.value_at(0);
    assert_eq!(item.blob_id, "B1");
    match &item.mailbox_ids {
        MaybeReference::Value(l) => {
            assert_eq!(l.len(), 1);
            assert!(matches!(&l[0], MaybeReference::Value(id) if id == "M1"));
        },
        MaybeReference::Reference(_) => panic!("expected a literal list"),
    }
    assert_eq!(item.keywords, vec!["$seen".to_string()]);
    assert!(item.received_at.is_none());
}

#[test]
fn unknown_top_level_field_is_ignored() {
    // The same request with one extra unrecognized key, valued by a nested
    // object, parses to the same result.
    let mut with_extra = vec![
        Token::DictStart,
        s("futureField"),
        Token::DictStart,
        s("x"),
        Token::ArrayStart,
        Token::Int(1),
        Token::Bool(true),
        Token::ArrayEnd,
        Token::DictEnd,
    ];
    with_extra.extend(minimal_request_tokens().into_iter().skip(1));
    let plain = parse_ok(minimal_request_tokens());
    let extra = parse_ok(with_extra);
    assert_eq!(plain.account_id, extra.account_id);
    assert_eq!(plain.if_in_state, extra.if_in_state);
    assert_eq!(plain.emails.len(), extra.emails.len());
    assert_eq!(plain.emails.key_at(0), extra.emails.key_at(0));
    assert_eq!(
        plain.emails.value_at(0).blob_id,
        extra.emails.value_at(0).blob_id
    );
}

#[test]
fn unknown_item_field_is_ignored() {
    let tokens = vec![
        Token::DictStart,
        s("accountId"),
        s("A1"),
        s("emails"),
        Token::DictStart,
        s("c1"),
        Token::DictStart,
        s("somethingNew"),
        Token::Null,
        s("blobId"),
        s("B1"),
        Token::DictEnd,
        Token::DictEnd,
        Token::DictEnd,
    ];
    let req = parse_ok(tokens);
    assert_eq!(req.emails.value_at(0).blob_id, "B1");
}

#[test]
fn skip_handles_scalar_array_and_nested_object() {
    // An unknown key before a known one, in each value shape: the key
    // after the skipped value is still decoded correctly.
    for filler in [
        vec![Token::Int(7)],
        vec![Token::ArrayStart, s("a"), Token::Int(1), Token::ArrayEnd],
        vec![
            Token::DictStart,
            s("inner"),
            Token::ArrayStart,
            Token::DictStart,
            Token::DictEnd,
            Token::ArrayEnd,
            Token::DictEnd,
        ],
    ] {
        let mut tokens = vec![Token::DictStart, s("unknownKey")];
        tokens.extend(filler);
        tokens.extend(vec![s("accountId"), s("A9"), Token::DictEnd]);
        let req = parse_ok(tokens);
        assert_eq!(req.account_id, "A9");
    }
}

#[test]
fn skip_value_stops_exactly_after_the_value() {
    let tokens = vec![
        Token::ArrayStart,
        Token::DictStart,
        s("k"),
        Token::Null,
        Token::DictEnd,
        Token::ArrayEnd,
        s("next"),
    ];
    let mut reader = TokenReader::new(tokens);
    assert!(reader.skip_value().is_ok());
    assert!(!reader.done());
    assert_eq!(reader.next_string().unwrap(), "next");
    assert!(reader.done());
}

#[test]
fn skip_value_rejects_mismatched_delimiters() {
    let tokens = vec![Token::ArrayStart, Token::DictEnd];
    let mut reader = TokenReader::new(tokens);
    assert_eq!(reader.skip_value().unwrap_err(), ParseError::UnexpectedToken);
}

#[test]
fn reference_marker_on_plain_field_is_rejected() {
    let tokens = vec![Token::DictStart, s("accountId#ref"), s("x"), Token::DictEnd];
    assert_eq!(parse_err(tokens), ParseError::UnsupportedReference);
}

#[test]
fn both_forms_of_mailbox_ids_conflict() {
    let tokens = vec![
        Token::DictStart,
        s("emails"),
        Token::DictStart,
        s("c1"),
        Token::DictStart,
        s("mailboxIds"),
        Token::ArrayStart,
        s("M1"),
        Token::ArrayEnd,
        s("mailboxIds#ref"),
        Token::DictStart,
        s("resultOf"),
        s("c0"),
        s("path"),
        s("id"),
        Token::DictEnd,
        Token::DictEnd,
        Token::DictEnd,
        Token::DictEnd,
    ];
    assert_eq!(parse_err(tokens), ParseError::ConflictingForms);
}

#[test]
fn missing_opening_delimiter_is_rejected() {
    assert_eq!(parse_err(vec![s("accountId")]), ParseError::ExpectedObject);
}

#[test]
fn wrong_value_type_is_rejected() {
    let tokens = vec![Token::DictStart, s("accountId"), Token::Int(5), Token::DictEnd];
    assert_eq!(parse_err(tokens), ParseError::TypeMismatch);
}

#[test]
fn truncated_stream_is_rejected() {
    let tokens = vec![Token::DictStart, s("accountId")];
    assert_eq!(parse_err(tokens), ParseError::UnexpectedEnd);
}

#[test]
fn if_in_state_accepts_string_and_null() {
    let with_state = vec![Token::DictStart, s("ifInState"), s("S4"), Token::DictEnd];
    assert_eq!(parse_ok(with_state).if_in_state, Some("S4".to_string()));
    let with_null = vec![Token::DictStart, s("ifInState"), Token::Null, Token::DictEnd];
    assert_eq!(parse_ok(with_null).if_in_state, None);
}

#[test]
fn hash_prefixed_mailbox_id_parses_as_reference() {
    let tokens = vec![
        Token::DictStart,
        s("emails"),
        Token::DictStart,
        s("c2"),
        Token::DictStart,
        s("mailboxIds"),
        Token::ArrayStart,
        s("#c1"),
        s("M2"),
        Token::ArrayEnd,
        Token::DictEnd,
        Token::DictEnd,
        Token::DictEnd,
    ];
    let req = parse_ok(tokens);
    match &req.emails.value_at(0).mailbox_ids {
        MaybeReference::Value(l) => {
            assert!(matches!(&l[0], MaybeReference::Reference(c) if c == "c1"));
            assert!(matches!(&l[1], MaybeReference::Value(id) if id == "M2"));
        },
        MaybeReference::Reference(_) => panic!("expected a literal list"),
    }
}

#[test]
fn mailbox_ids_reference_form_parses() {
    let tokens = vec![
        Token::DictStart,
        s("emails"),
        Token::DictStart,
        s("c2"),
        Token::DictStart,
        s("mailboxIds#ref"),
        Token::DictStart,
        s("resultOf"),
        s("c1"),
        s("path"),
        s("mailboxIds"),
        s("laterAddition"),
        Token::Bool(false),
        Token::DictEnd,
        Token::DictEnd,
        Token::DictEnd,
        Token::DictEnd,
    ];
    let req = parse_ok(tokens);
    match &req.emails.value_at(0).mailbox_ids {
        MaybeReference::Reference(rr) => {
            assert_eq!(rr.result_of, "c1");
            assert_eq!(rr.path, "mailboxIds");
        },
        MaybeReference::Value(_) => panic!("expected a reference"),
    }
}

#[test]
fn received_at_is_kept() {
    let tokens = vec![
        Token::DictStart,
        s("emails"),
        Token::DictStart,
        s("c1"),
        Token::DictStart,
        s("receivedAt"),
        s("2023-10-17T14:00:00Z"),
        Token::DictEnd,
        Token::DictEnd,
        Token::DictEnd,
    ];
    let req = parse_ok(tokens);
    assert_eq!(
        req.emails.value_at(0).received_at,
        Some("2023-10-17T14:00:00Z".to_string())
    );
}

#[test]
fn duplicate_creation_id_keeps_first_position_last_value() {
    let tokens = vec![
        Token::DictStart,
        s("emails"),
        Token::DictStart,
        s("c1"),
        Token::DictStart,
        s("blobId"),
        s("B1"),
        Token::DictEnd,
        s("c2"),
        Token::DictStart,
        s("blobId"),
        s("B2"),
        Token::DictEnd,
        s("c1"),
        Token::DictStart,
        s("blobId"),
        s("B3"),
        Token::DictEnd,
        Token::DictEnd,
        Token::DictEnd,
    ];
    let req = parse_ok(tokens);
    assert_eq!(req.emails.len(), 2);
    assert_eq!(req.emails.key_at(0), "c1");
    assert_eq!(req.emails.value_at(0).blob_id, "B3");
    assert_eq!(req.emails.key_at(1), "c2");
}

#[test]
fn item_parse_reads_one_object() {
    let tokens = vec![
        Token::DictStart,
        s("blobId"),
        s("B7"),
        Token::DictEnd,
        s("after"),
    ];
    let mut reader = TokenReader::new(tokens);
    let item = ImportEmail::parse(&mut reader).unwrap();
    assert_eq!(item.blob_id, "B7");
    assert_eq!(reader.next_string().unwrap(), "after");
}
