use message_send::draft::{Data, Error, Field};
use message_send::mention::extract_mentions;
use message_send::pipeline::{create_message, req};
use message_send::store::Store;

const ALPHABET: &str = "0123456789ABCDEFGHJKMNPQRSTVWXYZ";

fn s(x: &str) -> String {
    x.to_string()
}

fn draft(content: &str, nonce: &str, attachments: Option<Vec<&str>>) -> Data {
    Data::new(s(content), s(nonce), attachments.map(|v| v.into_iter().map(s).collect()))
}

fn store_with(ids: &[&str]) -> Store {
    let mut store = Store::new();
    for id in ids {
        assert!(store.upload(s(id)));
    }
    store
}

fn binding(store: &Store, id: &str) -> Option<String> {
    store.attachment(&s(id)).expect("attachment exists").message_id
}

fn send(store: &mut Store, d: &Data, can_send: bool, id: &str) -> Result<message_send::store::Message, Error> {
    create_message(store, d, &s("author"), &s("channel"), can_send, s(id))
}

#[test]
fn empty_draft_is_rejected() {
    let mut store = store_with(&[]);
    let d = draft("", "n1", None);
    assert_eq!(send(&mut store, &d, true, "m1").err(), Some(Error::EmptyMessage));
    assert_eq!(send(&mut store, &d, false, "m1").err(), Some(Error::EmptyMessage));
    assert_eq!(store.message_count(), 0);
}

#[test]
fn five_attachments_are_too_many_and_bind_nothing() {
    let ids = ["a1", "a2", "a3", "a4", "a5"];
    let mut store = store_with(&ids);
    let d = draft("x", "n1", Some(ids.to_vec()));
    assert_eq!(send(&mut store, &d, true, "m1").err(), Some(Error::TooManyAttachments));
    for id in ids {
        assert_eq!(binding(&store, id), None);
    }
    assert_eq!(store.message_count(), 0);
}

#[test]
fn four_attachments_are_accepted() {
    let ids = ["a1", "a2", "a3", "a4"];
    let mut store = store_with(&ids);
    let d = draft("", "n1", Some(ids.to_vec()));
    let m = send(&mut store, &d, true, "m1").unwrap();
    let got: Vec<String> = m.attachments.unwrap().into_iter().map(|a| a.id).collect();
    assert_eq!(got, vec![s("a1"), s("a2"), s("a3"), s("a4")]);
    for id in ids {
        assert_eq!(binding(&store, id), Some(s("m1")));
    }
}

#[test]
fn same_nonce_is_accepted_once_in_either_order() {
    for (first, second) in [("hello", "world"), ("world", "hello")] {
        let mut store = store_with(&[]);
        let a = draft(first, "shared", None);
        let b = draft(second, "shared", None);
        let m = send(&mut store, &a, true, "m1").unwrap();
        assert_eq!(m.content, s(first));
        assert_eq!(send(&mut store, &b, true, "m2").err(), Some(Error::DuplicateNonce));
        assert_eq!(store.message_count(), 1);
    }
}

#[test]
fn mention_round_trip() {
    let content = "<@01ARZ3NDEKTSV4RRFFQ69G5FAV> hello";
    assert_eq!(extract_mentions(content), vec![s("01ARZ3NDEKTSV4RRFFQ69G5FAV")]);
    let mut store = store_with(&[]);
    let m = send(&mut store, &draft(content, "n1", None), true, "m1").unwrap();
    assert_eq!(m.mentions, Some(vec![s("01ARZ3NDEKTSV4RRFFQ69G5FAV")]));
}

#[test]
fn only_first_mention_is_taken() {
    let content = "hi <@01ARZ3NDEKTSV4RRFFQ69G5FAV> and <@01BX5ZZKBKACTAV9WEVGEMMVRZ>";
    assert_eq!(extract_mentions(content), vec![s("01ARZ3NDEKTSV4RRFFQ69G5FAV")]);
}

#[test]
fn malformed_mentions_are_ignored() {
    assert!(extract_mentions("<@01ARZ3NDEKTSV4RRFFQ69G5FA>").is_empty());
    assert!(extract_mentions("<@01ARZ3NDEKTSV4RRFFQ69G5FAI>").is_empty());
    assert!(extract_mentions("<@01arz3ndektsv4rrffq69g5fav>").is_empty());
    assert!(extract_mentions("<01ARZ3NDEKTSV4RRFFQ69G5FAV>").is_empty());
    assert!(extract_mentions("").is_empty());
}

#[test]
fn mention_after_multibyte_text() {
    let content = "héllo ✓ <@01ARZ3NDEKTSV4RRFFQ69G5FAV>";
    assert_eq!(extract_mentions(content), vec![s("01ARZ3NDEKTSV4RRFFQ69G5FAV")]);
}

#[test]
fn empty_content_with_one_attachment() {
    let mut store = store_with(&["up1"]);
    let m = send(&mut store, &draft("", "n1", Some(vec!["up1"])), true, "m1").unwrap();
    assert_eq!(m.content, s(""));
    let atts = m.attachments.unwrap();
    assert_eq!(atts.len(), 1);
    assert_eq!(atts[0].id, s("up1"));
    assert_eq!(atts[0].message_id, Some(s("m1")));
    assert_eq!(binding(&store, "up1"), Some(s("m1")));
}

#[test]
fn failed_second_binding_unbinds_the_first() {
    let mut store = store_with(&["good"]);
    let d = draft("x", "n1", Some(vec!["good", "missing"]));
    assert_eq!(send(&mut store, &d, true, "m1").err(), Some(Error::InvalidAttachment));
    assert_eq!(binding(&store, "good"), None);
    assert_eq!(store.message_count(), 0);
}

#[test]
fn reference_listed_twice_is_invalid() {
    let mut store = store_with(&["a"]);
    let d = draft("x", "n1", Some(vec!["a", "a"]));
    assert_eq!(send(&mut store, &d, true, "m1").err(), Some(Error::InvalidAttachment));
    assert_eq!(binding(&store, "a"), None);
}

#[test]
fn bound_attachment_cannot_be_reused() {
    let mut store = store_with(&["a"]);
    send(&mut store, &draft("x", "n1", Some(vec!["a"])), true, "m1").unwrap();
    let d = draft("y", "n2", Some(vec!["a"]));
    assert_eq!(send(&mut store, &d, true, "m2").err(), Some(Error::InvalidAttachment));
    assert_eq!(binding(&store, "a"), Some(s("m1")));
    assert_eq!(store.message_count(), 1);
}

#[test]
fn denied_submission_is_not_persisted() {
    let mut store = store_with(&["a"]);
    let d = draft("hi", "n1", Some(vec!["a"]));
    assert_eq!(send(&mut store, &d, false, "m1").err(), Some(Error::MissingPermission));
    assert!(!store.has_nonce(&s("n1")));
    assert_eq!(binding(&store, "a"), None);
}

#[test]
fn plain_message_scenario() {
    let mut store = store_with(&[]);
    let d = draft("hi", "n1", None);
    let m = req(&mut store, &s("author"), &s("channel"), true, &d).unwrap();
    assert_eq!(m.id.chars().count(), 26);
    assert!(m.id.chars().all(|c| ALPHABET.contains(c)));
    assert_eq!(m.nonce, Some(s("n1")));
    assert!(m.mentions.is_none());
    assert!(m.attachments.is_none());
    assert_eq!(m.content, s("hi"));
    assert_eq!(m.author, s("author"));
    assert_eq!(m.channel, s("channel"));
    assert!(store.has_nonce(&s("n1")));
}

#[test]
fn generated_ids_differ() {
    let mut store = store_with(&[]);
    let a = req(&mut store, &s("u"), &s("c"), true, &draft("a", "n1", None)).unwrap();
    let b = req(&mut store, &s("u"), &s("c"), true, &draft("b", "n2", None)).unwrap();
    assert_ne!(a.id, b.id);
}

#[test]
fn validation_errors_name_the_field() {
    let long = "x".repeat(2001);
    let mut store = store_with(&[]);
    let cases = vec![
        (draft(&long, "n1", None), Field::Content),
        (draft("x", "", None), Field::Nonce),
        (draft("x", &"n".repeat(37), None), Field::Nonce),
        (draft("x", "n1", Some(vec![])), Field::Attachments),
        (draft("x", "n1", Some(vec!["a"; 129])), Field::Attachments),
        (draft("", "", None), Field::Nonce),
    ];
    for (d, field) in cases {
        assert_eq!(send(&mut store, &d, true, "m1").err(), Some(Error::FailedValidation { field }));
    }
    assert_eq!(store.message_count(), 0);
}

#[test]
fn length_limits_count_characters() {
    let mut store = store_with(&[]);
    let content = "é".repeat(2000);
    let nonce = "ü".repeat(36);
    assert!(send(&mut store, &draft(&content, &nonce, None), true, "m1").is_ok());
}

#[test]
fn upload_refuses_a_used_id() {
    let mut store = Store::new();
    assert!(store.upload(s("a")));
    assert!(!store.upload(s("a")));
}
