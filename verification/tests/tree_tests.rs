use postcat_core::auth::{Auth, AuthType};
use postcat_core::central::default_record;
use postcat_core::collections::{Collection, CollectionFolder, Collections};
use postcat_core::http::HttpRecord;

fn named_record(name: &str) -> HttpRecord {
    let mut r = default_record();
    r.name = String::from(name);
    r
}

fn folder(name: &str) -> CollectionFolder {
    CollectionFolder::new(String::from(name))
}

fn basic_auth(user: &str) -> Auth {
    Auth {
        auth_type: AuthType::BasicAuth,
        basic_username: String::from(user),
        basic_password: String::from("SECRET-REDACTED"),
        bearer_token: String::new(),
    }
}

fn sample_tree() -> Collections {
    // collectionA/f1/f2, with a request under f2
    let mut cols = Collections::new();
    cols.insert_collection(Collection { folder: folder("collectionA") });
    cols.insert_folder(String::from("collectionA"), folder("f1"));
    cols.insert_folder(String::from("collectionA/f1"), folder("f2"));
    cols.insert_http_record(String::from("collectionA/f1/f2"), named_record("req"));
    cols
}

#[test]
fn resolve_folder_path() {
    let cols = sample_tree();
    let (rest, f) = cols.get_folder_with_path(String::from("collectionA/f1/f2"));
    assert_eq!(rest, "");
    assert_eq!(f.expect("folder").name, "f2");
}

#[test]
fn resolve_trailing_request_name() {
    let cols = sample_tree();
    let (rest, f) = cols.get_folder_with_path(String::from("collectionA/f1/f2/req"));
    assert_eq!(rest, "req");
    assert_eq!(f.expect("folder").name, "f2");
}

#[test]
fn resolve_unknown_collection_fails() {
    let cols = sample_tree();
    let (rest, f) = cols.get_folder_with_path(String::from("nope/f1"));
    assert_eq!(rest, "nope/f1");
    assert!(f.is_none());
}

#[test]
fn resolve_unmatched_middle_segment_fails() {
    let cols = sample_tree();
    let (rest, f) = cols.get_folder_with_path(String::from("collectionA/zzz/f2"));
    assert_eq!(rest, "collectionA/zzz/f2");
    assert!(f.is_none());
}

#[test]
fn resolve_is_read_only_and_repeatable() {
    let cols = sample_tree();
    let (rest1, f1) = cols.get_folder_with_path(String::from("collectionA/f1/f2"));
    let (rest2, f2) = cols.get_folder_with_path(String::from("collectionA/f1/f2"));
    assert_eq!(rest1, rest2);
    let (a, b) = (f1.expect("first"), f2.expect("second"));
    assert_eq!(a.name, b.name);
    assert_eq!(a.requests.len(), b.requests.len());
    assert_eq!(a.folders.len(), b.folders.len());
}

#[test]
fn auth_inherited_from_nearest_defining_ancestor() {
    let mut cols = sample_tree();
    let mut f1 = folder("f1");
    f1.auth = basic_auth("alice");
    // re-insert f1 with auth; its subtree is replaced, so rebuild f2
    cols.insert_folder(String::from("collectionA"), f1);
    cols.insert_folder(String::from("collectionA/f1"), folder("f2"));
    let got = cols.get_auth(String::from("collectionA/f1/f2"));
    assert_eq!(got.auth_type, AuthType::BasicAuth);
    assert_eq!(got.basic_username, "alice");
}

#[test]
fn auth_of_deeper_folder_wins() {
    let mut cols = Collections::new();
    cols.insert_collection(Collection { folder: folder("collectionA") });
    let mut f1 = folder("f1");
    f1.auth = basic_auth("alice");
    cols.insert_folder(String::from("collectionA"), f1);
    let mut f2 = folder("f2");
    f2.auth = basic_auth("bob");
    cols.insert_folder(String::from("collectionA/f1"), f2);
    let got = cols.get_auth(String::from("collectionA/f1/f2"));
    assert_eq!(got.basic_username, "bob");
}

#[test]
fn auth_absent_everywhere_is_no_auth() {
    let cols = sample_tree();
    let got = cols.get_auth(String::from("collectionA/f1/f2"));
    assert_eq!(got.auth_type, AuthType::NoAuth);
}

#[test]
fn scripts_gathered_root_to_leaf() {
    let mut cols = Collections::new();
    let mut root = folder("collectionA");
    root.pre_request_scripts.push(String::from("R"));
    root.test_scripts.push(String::from("R"));
    cols.insert_collection(Collection { folder: root });
    let mut f = folder("f");
    f.pre_request_scripts.push(String::from("F"));
    f.test_scripts.push(String::from("F"));
    cols.insert_folder(String::from("collectionA"), f);
    // leaf request under f: path carries the request name as trailing segment
    let (pre, test) = cols.get_path_scripts(String::from("collectionA/f/leaf"));
    let pre_texts: Vec<&str> = pre.iter().map(|s| s.script.as_str()).collect();
    let test_texts: Vec<&str> = test.iter().map(|s| s.script.as_str()).collect();
    assert_eq!(pre_texts, vec!["R", "F"]);
    assert_eq!(test_texts, vec!["R", "F"]);
    assert_eq!(pre[0].scope, "collectionA");
    assert_eq!(pre[1].scope, "collectionA/f");
}

#[test]
fn insert_record_overwrites_by_name() {
    let mut cols = sample_tree();
    let mut newer = named_record("req");
    newer.desc = String::from("second");
    cols.insert_http_record(String::from("collectionA/f1/f2"), newer);
    let (_, f) = cols.get_folder_with_path(String::from("collectionA/f1/f2"));
    let f = f.expect("folder");
    assert_eq!(f.requests.len(), 1);
    assert_eq!(f.requests[0].desc, "second");
}

#[test]
fn remove_folder_discards_subtree() {
    let mut cols = sample_tree();
    cols.remove_folder(String::from("collectionA"), String::from("f1"));
    // "f1" no longer names a folder: it comes back as the unmatched trailing
    // name, and anything below it is gone
    let (rest, f) = cols.get_folder_with_path(String::from("collectionA/f1"));
    assert_eq!(rest, "f1");
    assert_eq!(f.expect("deepest matched folder").name, "collectionA");
    let (rest, f) = cols.get_folder_with_path(String::from("collectionA/f1/f2"));
    assert_eq!(rest, "collectionA/f1/f2");
    assert!(f.is_none());
    let (rest, root) = cols.get_folder_with_path(String::from("collectionA"));
    assert_eq!(rest, "");
    assert_eq!(root.expect("root").folders.len(), 0);
}

#[test]
fn remove_http_record_only_touches_named_request() {
    let mut cols = sample_tree();
    cols.insert_http_record(String::from("collectionA/f1/f2"), named_record("other"));
    cols.remove_http_record(String::from("collectionA/f1/f2"), String::from("req"));
    let (_, f) = cols.get_folder_with_path(String::from("collectionA/f1/f2"));
    let f = f.expect("folder");
    assert_eq!(f.requests.len(), 1);
    assert_eq!(f.requests[0].name, "other");
}

#[test]
fn split_and_join_paths() {
    let segs = postcat_core::path::split_path("a/b/c");
    let texts: Vec<&str> = segs.iter().map(|s| s.as_str()).collect();
    assert_eq!(texts, vec!["a", "b", "c"]);
    let one = postcat_core::path::split_path("alone");
    assert_eq!(one.len(), 1);
    assert_eq!(one[0], "alone");
    let empties = postcat_core::path::split_path("a//b");
    let texts: Vec<&str> = empties.iter().map(|s| s.as_str()).collect();
    assert_eq!(texts, vec!["a", "", "b"]);
    assert_eq!(postcat_core::path::join_path("a/b", "c"), "a/b/c");
}

#[test]
fn method_text_is_upper_case() {
    assert_eq!(postcat_core::http::Method::Get.text(), "GET");
    assert_eq!(postcat_core::http::Method::Options.text(), "OPTIONS");
    assert_eq!(postcat_core::http::Method::all().len(), 8);
}
