use jmap_import::executor::{
    execute, resolve_mailbox_ids, BatchOutcome, ItemVerdict, StateConflict,
};
use jmap_import::ordmap::OrderedStringMap;
use jmap_import::request::{ImportEmail, ImportEmailRequest};
use jmap_import::response::{ImportEmailResponse, Response};
use jmap_import::types::{MaybeReference, ResultReference, SetError, SetErrorKind, Value};

fn item_with_refs(blob: &str, mailboxes: &[&str]) -> ImportEmail {
    let list = mailboxes
        .iter()
        .map(|m| {
            if let Some(cid) = m.strip_prefix('#') {
                MaybeReference::Reference(cid.to_string())
            } else {
                MaybeReference::Value(m.to_string())
            }
        })
        .collect();
    ImportEmail {
        blob_id: blob.to_string(),
        mailbox_ids: MaybeReference::Value(list),
        keywords: vec![],
        received_at: None,
    }
}

fn request_of(account: &str, if_in_state: Option<&str>, items: Vec<(&str, ImportEmail)>) -> ImportEmailRequest {
    let mut emails = OrderedStringMap::new();
    for (k, item) in items {
        assert!(!emails.contains_key(&k.to_string()));
        emails.append(k.to_string(), item);
    }
    ImportEmailRequest {
        account_id: account.to_string(),
        if_in_state: if_in_state.map(|s| s.to_string()),
        emails,
    }
}

fn result_object(props: &[(&str, &str)]) -> OrderedStringMap<Value> {
    let mut obj = OrderedStringMap::new();
    for (k, v) in props {
        assert!(!obj.contains_key(&k.to_string()));
        obj.append(k.to_string(), Value::Str(v.to_string()));
    }
    obj
}

fn created_verdict(id: &str, blob: &str) -> ItemVerdict {
    ItemVerdict::Created(result_object(&[("id", id), ("blobId", blob)]))
}

fn done(outcome: BatchOutcome) -> ImportEmailResponse {
    match outcome {
        BatchOutcome::Done(resp) => resp,
        other => panic!("expected Done, got {:?}", other),
    }
}

#[test]
fn single_item_import_advances_state() {
    // Request {accountId:"A1", emails:{"c1":{blobId:"B1", mailboxIds:["M1"],
    // keywords:["$seen"]}}} against current state "S1" with no guard.
    let mut item = item_with_refs("B1", &["M1"]);
    item.keywords = vec!["$seen".to_string()];
    let req = request_of("A1", None, vec![("c1", item)]);
    let resp = done(execute(
        &req,
        "S1".to_string(),
        Ok("S2".to_string()),
        vec![created_verdict("E1", "B1")],
    ));
    assert_eq!(resp.account_id, "A1");
    assert_eq!(resp.old_state, Some("S1".to_string()));
    assert_eq!(resp.new_state, "S2");
    assert_eq!(resp.created.len(), 1);
    assert_eq!(resp.created.key_at(0), "c1");
    let obj = resp.created.value_at(0);
    assert!(matches!(obj.get(&"id".to_string()), Some(Value::Str(v)) if v == "E1"));
    assert!(matches!(obj.get(&"blobId".to_string()), Some(Value::Str(v)) if v == "B1"));
    assert!(resp.not_created.is_empty());
    let change = resp.state_change.expect("a change notification");
    assert_eq!(change.account_id, "A1");
    assert_eq!(change.new_state, "S2");
}

#[test]
fn state_mismatch_rejects_whole_batch() {
    // Same request but ifInState "S0" while the current state is "S1".
    let req = request_of("A1", Some("S0"), vec![("c1", item_with_refs("B1", &["M1"]))]);
    let outcome = execute(
        &req,
        "S1".to_string(),
        Ok("S2".to_string()),
        vec![created_verdict("E1", "B1")],
    );
    match outcome {
        BatchOutcome::StateMismatch(resp) => {
            assert_eq!(resp.account_id, "A1");
            assert_eq!(resp.old_state, Some("S1".to_string()));
            assert_eq!(resp.new_state, "S1");
            assert!(resp.created.is_empty());
            assert!(resp.not_created.is_empty());
            assert!(resp.state_change.is_none());
        },
        other => panic!("expected StateMismatch, got {:?}", other),
    }
}

#[test]
fn matching_guard_lets_the_batch_run() {
    let req = request_of("A1", Some("S1"), vec![("c1", item_with_refs("B1", &[]))]);
    let resp = done(execute(
        &req,
        "S1".to_string(),
        Ok("S2".to_string()),
        vec![created_verdict("E1", "B1")],
    ));
    assert_eq!(resp.created.len(), 1);
    assert_eq!(resp.new_state, "S2");
}

#[test]
fn created_keeps_input_order() {
    // Creation ids c1, c2, c3, all succeeding: created enumerates them in
    // exactly that order.
    let req = request_of(
        "A1",
        None,
        vec![
            ("c1", item_with_refs("B1", &["M1"])),
            ("c2", item_with_refs("B2", &["M1"])),
            ("c3", item_with_refs("B3", &["M1"])),
        ],
    );
    let resp = done(execute(
        &req,
        "S1".to_string(),
        Ok("S2".to_string()),
        vec![
            created_verdict("E1", "B1"),
            created_verdict("E2", "B2"),
            created_verdict("E3", "B3"),
        ],
    ));
    assert_eq!(resp.created.len(), 3);
    assert_eq!(resp.created.key_at(0), "c1");
    assert_eq!(resp.created.key_at(1), "c2");
    assert_eq!(resp.created.key_at(2), "c3");
    assert!(resp.not_created.is_empty());
}

#[test]
fn results_partition_the_batch() {
    // One item succeeds, one is rejected by storage, one fails resolution:
    // every creation id lands in exactly one of the two tables.
    let req = request_of(
        "A1",
        None,
        vec![
            ("c1", item_with_refs("B1", &["M1"])),
            ("c2", item_with_refs("B2", &["M1"])),
            ("c3", item_with_refs("B3", &["#missing"])),
        ],
    );
    let resp = done(execute(
        &req,
        "S1".to_string(),
        Ok("S2".to_string()),
        vec![
            created_verdict("E1", "B1"),
            ItemVerdict::Rejected(SetError {
                kind: SetErrorKind::BlobNotFound,
                description: None,
            }),
            created_verdict("E3", "B3"),
        ],
    ));
    assert_eq!(resp.created.len() + resp.not_created.len(), 3);
    assert!(resp.created.contains_key(&"c1".to_string()));
    assert!(resp.not_created.contains_key(&"c2".to_string()));
    assert!(resp.not_created.contains_key(&"c3".to_string()));
    assert!(!resp.not_created.contains_key(&"c1".to_string()));
    assert!(matches!(
        resp.not_created.get(&"c2".to_string()),
        Some(e) if e.kind == SetErrorKind::BlobNotFound
    ));
    assert!(matches!(
        resp.not_created.get(&"c3".to_string()),
        Some(e) if e.kind == SetErrorKind::InvalidReference
    ));
}

#[test]
fn forward_reference_resolves_to_assigned_id() {
    // Item c2 references "#c1"; c1 comes first and succeeds with id "E1",
    // so c2's list resolves to exactly that id.
    let created = {
        let mut m = OrderedStringMap::new();
        m.append("c1".to_string(), result_object(&[("id", "E1")]));
        m
    };
    let item = item_with_refs("B2", &["#c1", "M9"]);
    let resolved = resolve_mailbox_ids(&created, &item).expect("resolution succeeds");
    assert_eq!(resolved, vec!["E1".to_string(), "M9".to_string()]);
}

#[test]
fn backward_reference_fails_the_referencing_item() {
    // c1 references c2, which only comes later: c1 lands in notCreated
    // with the invalid-reference condition; c2 itself is still created.
    let req = request_of(
        "A1",
        None,
        vec![
            ("c1", item_with_refs("B1", &["#c2"])),
            ("c2", item_with_refs("B2", &["M1"])),
        ],
    );
    let resp = done(execute(
        &req,
        "S1".to_string(),
        Ok("S2".to_string()),
        vec![created_verdict("E1", "B1"), created_verdict("E2", "B2")],
    ));
    assert!(matches!(
        resp.not_created.get(&"c1".to_string()),
        Some(e) if e.kind == SetErrorKind::InvalidReference
    ));
    assert!(resp.created.contains_key(&"c2".to_string()));
}

#[test]
fn reference_to_failed_item_fails_too() {
    let req = request_of(
        "A1",
        None,
        vec![
            ("c1", item_with_refs("B1", &["M1"])),
            ("c2", item_with_refs("B2", &["#c1"])),
        ],
    );
    let resp = done(execute(
        &req,
        "S1".to_string(),
        Ok("S2".to_string()),
        vec![
            ItemVerdict::Rejected(SetError {
                kind: SetErrorKind::Forbidden,
                description: Some("quota".to_string()),
            }),
            created_verdict("E2", "B2"),
        ],
    ));
    assert!(matches!(
        resp.not_created.get(&"c2".to_string()),
        Some(e) if e.kind == SetErrorKind::InvalidReference
    ));
    // Nothing was created, so the state token stays put.
    assert_eq!(resp.new_state, "S1");
    assert!(resp.state_change.is_none());
}

#[test]
fn result_reference_reads_id_list_at_path() {
    let mut obj = OrderedStringMap::new();
    obj.append("id".to_string(), Value::Str("E1".to_string()));
    obj.append(
        "mailboxIds".to_string(),
        Value::IdList(vec!["M1".to_string(), "M2".to_string()]),
    );
    let mut created = OrderedStringMap::new();
    created.append("c1".to_string(), obj);
    let item = ImportEmail {
        blob_id: "B2".to_string(),
        mailbox_ids: MaybeReference::Reference(ResultReference {
            result_of: "c1".to_string(),
            path: "mailboxIds".to_string(),
        }),
        keywords: vec![],
        received_at: None,
    };
    let resolved = resolve_mailbox_ids(&created, &item).expect("resolution succeeds");
    assert_eq!(resolved, vec!["M1".to_string(), "M2".to_string()]);

    // The same reference at a path holding a plain string has the wrong
    // shape, and an unknown creation id is not found: both fail.
    let wrong_shape = ImportEmail {
        blob_id: "B2".to_string(),
        mailbox_ids: MaybeReference::Reference(ResultReference {
            result_of: "c1".to_string(),
            path: "id".to_string(),
        }),
        keywords: vec![],
        received_at: None,
    };
    let e = resolve_mailbox_ids(&created, &wrong_shape).unwrap_err();
    assert_eq!(e.kind, SetErrorKind::InvalidReference);
    let unknown = ImportEmail {
        blob_id: "B2".to_string(),
        mailbox_ids: MaybeReference::Reference(ResultReference {
            result_of: "c9".to_string(),
            path: "mailboxIds".to_string(),
        }),
        keywords: vec![],
        received_at: None,
    };
    let e = resolve_mailbox_ids(&created, &unknown).unwrap_err();
    assert_eq!(e.kind, SetErrorKind::InvalidReference);
}

#[test]
fn commit_conflict_aborts_after_success() {
    let req = request_of("A1", None, vec![("c1", item_with_refs("B1", &[]))]);
    let outcome = execute(
        &req,
        "S1".to_string(),
        Err(StateConflict),
        vec![created_verdict("E1", "B1")],
    );
    assert!(matches!(outcome, BatchOutcome::CommitConflict));
}

#[test]
fn conflict_is_ignored_when_nothing_was_created() {
    let req = request_of("A1", None, vec![("c1", item_with_refs("B1", &[]))]);
    let resp = done(execute(
        &req,
        "S1".to_string(),
        Err(StateConflict),
        vec![ItemVerdict::Rejected(SetError {
            kind: SetErrorKind::BlobNotFound,
            description: None,
        })],
    ));
    assert_eq!(resp.new_state, "S1");
    assert!(resp.created.is_empty());
    assert_eq!(resp.not_created.len(), 1);
}

#[test]
fn empty_batch_keeps_state() {
    let req = request_of("A1", None, vec![]);
    let resp = done(execute(&req, "S1".to_string(), Ok("S2".to_string()), vec![]));
    assert!(resp.created.is_empty());
    assert!(resp.not_created.is_empty());
    assert_eq!(resp.new_state, "S1");
    assert!(resp.state_change.is_none());
}

#[test]
fn update_created_ids_registers_string_ids() {
    let mut created = OrderedStringMap::new();
    created.append("c1".to_string(), result_object(&[("id", "E1")]));
    created.append("c2".to_string(), result_object(&[("blobId", "B2")]));
    let resp = ImportEmailResponse {
        account_id: "A1".to_string(),
        old_state: Some("S1".to_string()),
        new_state: "S2".to_string(),
        created,
        not_created: OrderedStringMap::new(),
        state_change: None,
    };
    let mut session = Response { created_ids: OrderedStringMap::new() };
    session.created_ids.set("c0".to_string(), "E0".to_string());
    resp.update_created_ids(&mut session);
    assert_eq!(session.created_ids.len(), 2);
    assert!(matches!(session.created_ids.get(&"c1".to_string()), Some(v) if v == "E1"));
    // c2's object has no string id property, so it adds nothing.
    assert!(!session.created_ids.contains_key(&"c2".to_string()));
    assert!(matches!(session.created_ids.get(&"c0".to_string()), Some(v) if v == "E0"));
}

#[test]
fn ordered_map_set_replaces_in_place() {
    let mut m: OrderedStringMap<Value> = OrderedStringMap::new();
    m.set("a".to_string(), Value::Str("1".to_string()));
    m.set("b".to_string(), Value::Str("2".to_string()));
    m.set("a".to_string(), Value::Str("3".to_string()));
    assert_eq!(m.len(), 2);
    assert_eq!(m.key_at(0), "a");
    assert!(matches!(m.get(&"a".to_string()), Some(Value::Str(v)) if v == "3"));
    assert!(m.contains_key(&"b".to_string()));
    assert!(!m.contains_key(&"c".to_string()));
}
