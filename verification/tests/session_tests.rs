use postcat_core::central::default_record;
use postcat_core::collections::{Collection, CollectionFolder};
use postcat_core::cookies::Cookie;
use postcat_core::environment::{EnvironmentConfig, EnvironmentItem};
use postcat_core::persist::PersistStore;
use postcat_core::workspace::WorkspaceData;

fn ws(name: &str) -> WorkspaceData {
    WorkspaceData::new(String::from(name))
}

fn env_item(key: &str, value: &str, enable: bool) -> EnvironmentItem {
    EnvironmentItem { key: String::from(key), value: String::from(value), enable }
}

fn cookie(domain: &str, path: &str, name: &str, value: &str) -> Cookie {
    Cookie {
        name: String::from(name),
        value: String::from(value),
        domain: String::from(domain),
        path: String::from(path),
        expires: String::new(),
        max_age: String::new(),
        raw: String::new(),
        http_only: false,
        secure: false,
    }
}

#[test]
fn env_later_definition_of_same_key_wins() {
    let mut w = ws("w");
    let cfg = EnvironmentConfig {
        items: vec![env_item("k", "1", true), env_item("k", "2", true)],
    };
    w.add_env(String::from("E"), cfg);
    w.set_env_select(Some(String::from("E")));
    let vars = w.get_build_envs(None);
    assert_eq!(vars.len(), 1);
    assert_eq!(vars[0].0, "k");
    assert_eq!(vars[0].1.value, "2");
    assert_eq!(vars[0].1.scope, "E");
}

#[test]
fn env_disabled_item_is_excluded() {
    let mut w = ws("w");
    let cfg = EnvironmentConfig {
        items: vec![env_item("k", "1", true), env_item("k", "2", false), env_item("x", "9", false)],
    };
    w.add_env(String::from("E"), cfg);
    w.set_env_select(Some(String::from("E")));
    let vars = w.get_build_envs(None);
    assert_eq!(vars.len(), 1);
    assert_eq!(vars[0].0, "k");
    assert_eq!(vars[0].1.value, "1");
}

#[test]
fn env_no_selection_resolves_empty() {
    let mut w = ws("w");
    w.add_env(
        String::from("E"),
        EnvironmentConfig { items: vec![env_item("k", "1", true)] },
    );
    assert_eq!(w.get_build_envs(None).len(), 0);
    w.set_env_select(Some(String::from("unknown")));
    assert_eq!(w.get_build_envs(None).len(), 0);
    assert_eq!(w.get_env_select(), Some(String::from("unknown")));
}

#[test]
fn tab_add_new_then_close_leaves_registry_empty() {
    let mut w = ws("w");
    w.add_new_crt();
    let ids = w.get_crt_id_list();
    assert_eq!(ids.len(), 1);
    let id = ids[0].clone();
    w.set_crt_select_id(Some(id.clone()));
    w.close_crt(id);
    assert_eq!(w.get_crt_id_list().len(), 0);
    assert_eq!(w.get_crt_id_set().len(), 0);
    assert_eq!(w.get_crt_select_id(), None);
}

#[test]
fn duplicate_gets_fresh_id_and_is_scratch() {
    let mut w = ws("w");
    w.add_new_crt();
    let id = w.get_crt_id_list()[0].clone();
    // bind the source tab to a collection path first
    let mut src = w.must_get_crt(id.clone());
    src.collection_path = Some(String::from("collectionA/f1"));
    w.must_get_mut_crt(id.clone(), src);
    w.duplicate_crt(id.clone());
    let ids = w.get_crt_id_list();
    assert_eq!(ids.len(), 2);
    assert_ne!(ids[0], ids[1]);
    let dup = w.must_get_crt(ids[1].clone());
    assert_eq!(dup.collection_path, None);
}

#[test]
fn close_other_keeps_only_one_selected() {
    let mut w = ws("w");
    w.add_new_crt();
    w.add_new_crt();
    w.add_new_crt();
    let keep = w.get_crt_id_list()[1].clone();
    w.close_other_crt(keep.clone());
    assert_eq!(w.get_crt_id_list(), vec![keep.clone()]);
    assert_eq!(w.get_crt_select_id(), Some(keep));
}

#[test]
fn close_all_empties_registry() {
    let mut w = ws("w");
    w.add_new_crt();
    w.add_new_crt();
    w.close_all_crt();
    assert_eq!(w.get_crt_id_list().len(), 0);
    assert_eq!(w.get_crt_select_id(), None);
}

#[test]
fn save_then_rename_keeps_tab_bound_and_clean() {
    let mut w = ws("w");
    w.add_collection(Collection { folder: CollectionFolder::new(String::from("collectionA")) });
    w.collection_insert_folder(String::from("collectionA"), CollectionFolder::new(String::from("f1")));
    w.add_new_crt();
    let id = w.get_crt_id_list()[0].clone();
    let mut rec = default_record();
    rec.name = String::from("req");
    w.save_crt(id, String::from("collectionA/f1"), rec);
    // the tab's identity is now derived from its saved path
    let ids = w.get_crt_id_list();
    assert_eq!(ids, vec![String::from("collectionA/f1/req")]);
    let saved = w.must_get_crt(ids[0].clone());
    assert!(!saved.is_modify());
    assert_eq!(saved.collection_path, Some(String::from("collectionA/f1")));
    // rename the saved entity
    w.update_crt_old_name_to_new_name(
        String::from("collectionA/f1"),
        String::from("req"),
        String::from("req2"),
    );
    let ids = w.get_crt_id_list();
    assert_eq!(ids, vec![String::from("collectionA/f1/req2")]);
    let tab = w.must_get_crt(ids[0].clone());
    assert_eq!(tab.rest.name, "req2");
    assert_eq!(tab.baseline.name, "req2");
    assert!(!tab.is_modify());
    assert_eq!(tab.collection_path, Some(String::from("collectionA/f1")));
}

#[test]
fn dirty_tracking_follows_edits_and_save() {
    let mut w = ws("w");
    w.add_collection(Collection { folder: CollectionFolder::new(String::from("c")) });
    w.add_new_crt();
    let id = w.get_crt_id_list()[0].clone();
    let mut tab = w.must_get_crt(id.clone());
    assert!(!tab.is_modify());
    tab.rest.request.base_url = String::from("http://example.test");
    assert!(tab.is_modify());
    w.must_get_mut_crt(id.clone(), tab);
    assert!(w.must_get_crt(id.clone()).is_modify());
    let mut rec = w.must_get_crt(id.clone()).rest;
    rec.name = String::from("r");
    w.save_crt(id, String::from("c"), rec);
    let id2 = w.get_crt_id_list()[0].clone();
    assert!(!w.must_get_crt(id2).is_modify());
}

#[test]
fn must_get_unknown_id_yields_default_item() {
    let w = ws("w");
    let item = w.must_get_crt(String::from("missing"));
    assert_eq!(item.id, "");
    assert_eq!(item.collection_path, None);
    assert!(w.get_crt_cloned(String::from("missing")).is_none());
}

#[test]
fn import_collection_renames_on_collision() {
    let mut w = ws("w");
    w.add_collection(Collection { folder: CollectionFolder::new(String::from("c")) });
    let name = w.import_collection(Collection { folder: CollectionFolder::new(String::from("c")) });
    assert_ne!(name, "c");
    assert!(name.starts_with("c"));
    let names = w.get_collection_names();
    assert_eq!(names.len(), 2);
    assert!(names.contains(&String::from("c")));
    assert!(names.contains(&name));
    // no collision: the name is kept as it is
    let kept = w.import_collection(Collection { folder: CollectionFolder::new(String::from("fresh")) });
    assert_eq!(kept, "fresh");
}

#[test]
fn cookie_update_on_missing_target_fails_and_changes_nothing() {
    let mut w = ws("w");
    assert!(w.add_domain_cookies(cookie("example.test", "/", "sid", "1")).is_ok());
    let bad = w.update_domain_cookies(
        cookie("example.test", "/", "nope", "2"),
        String::from("example.test"),
        String::from("nope"),
    );
    assert!(bad.is_err());
    let bad2 = w.update_domain_cookies(
        cookie("other.test", "/", "sid", "2"),
        String::from("other.test"),
        String::from("sid"),
    );
    assert!(bad2.is_err());
    let row = w.get_domain_cookies(String::from("example.test")).expect("domain");
    assert_eq!(row.len(), 1);
    assert_eq!(row[0].value, "1");
    let good = w.update_domain_cookies(
        cookie("example.test", "/", "sid", "2"),
        String::from("example.test"),
        String::from("sid"),
    );
    assert!(good.is_ok());
    let row = w.get_domain_cookies(String::from("example.test")).expect("domain");
    assert_eq!(row[0].value, "2");
}

#[test]
fn url_cookies_filter_by_host_and_path_prefix() {
    let mut w = ws("w");
    w.add_domain_cookies(cookie("example.test", "/", "a", "1")).unwrap();
    w.add_domain_cookies(cookie("example.test", "/api", "b", "2")).unwrap();
    w.add_domain_cookies(cookie("example.test", "/other", "c", "3")).unwrap();
    w.add_domain_cookies(cookie("elsewhere.test", "/", "d", "4")).unwrap();
    let got = w.get_url_cookies(String::from("http://example.test/api/v1"));
    let names: Vec<&str> = got.iter().map(|p| p.0.as_str()).collect();
    assert_eq!(names, vec!["a", "b"]);
    let bare = w.get_url_cookies(String::from("https://example.test"));
    let names: Vec<&str> = bare.iter().map(|p| p.0.as_str()).collect();
    assert_eq!(names, vec!["a"]);
}

#[test]
fn cookie_remove_operations() {
    let mut w = ws("w");
    w.add_domain_cookies(cookie("example.test", "/", "a", "1")).unwrap();
    w.add_domain_cookies(cookie("example.test", "/x", "b", "2")).unwrap();
    assert!(w.cookies_contain_domain(String::from("example.test")));
    assert!(w.cookies_contain_domain_key(String::from("example.test"), String::from("a")));
    w.remove_cookie_domain_path_name(
        String::from("example.test"),
        String::from("/"),
        String::from("a"),
    );
    assert!(!w.cookies_contain_domain_key(String::from("example.test"), String::from("a")));
    w.remove_cookie_domain(String::from("example.test"));
    assert!(!w.cookies_contain_domain(String::from("example.test")));
    assert_eq!(w.get_cookie_domains().len(), 0);
}

#[test]
fn history_records_group_by_date_in_order() {
    let mut w = ws("w");
    let mut a = default_record();
    a.name = String::from("first");
    let mut b = default_record();
    b.name = String::from("second");
    w.history_record(a);
    w.history_record(b);
    let groups = w.get_history_group();
    assert_eq!(groups.len(), 1);
    let (date, recs) = &groups[0];
    assert!(1 <= date.month && date.month <= 12);
    assert!(1 <= date.day && date.day <= 31);
    assert_eq!(recs.len(), 2);
    assert_eq!(recs[0].name, "first");
    assert_eq!(recs[1].name, "second");
}

#[test]
fn persisted_state_round_trips_through_load_all() {
    let mut w = ws("session");
    w.add_collection(Collection { folder: CollectionFolder::new(String::from("c")) });
    w.collection_insert_folder(String::from("c"), CollectionFolder::new(String::from("f")));
    w.add_env(
        String::from("E"),
        EnvironmentConfig { items: vec![env_item("k", "v", true)] },
    );
    w.set_env_select(Some(String::from("E")));
    w.add_domain_cookies(cookie("example.test", "/", "sid", "1")).unwrap();
    let mut store = PersistStore::new();
    w.save_all(&mut store);

    let mut other = ws("scratch");
    other.load_all(String::from("session"), &store);
    assert_eq!(other.workspace_name, "session");
    assert_eq!(other.get_collection_names(), vec![String::from("c")]);
    let (rest, f) = other.get_folder_with_path(String::from("c/f"));
    assert_eq!(rest, "");
    assert!(f.is_some());
    assert_eq!(other.get_env_select(), Some(String::from("E")));
    let vars = other.get_build_envs(None);
    assert_eq!(vars.len(), 1);
    assert_eq!(vars[0].1.value, "v");
    let row = other.get_domain_cookies(String::from("example.test")).expect("domain");
    assert_eq!(row.len(), 1);
    assert_eq!(row[0].value, "1");
}

#[test]
fn reload_keeps_open_tabs() {
    let mut w = ws("session");
    w.add_collection(Collection { folder: CollectionFolder::new(String::from("c")) });
    let mut store = PersistStore::new();
    w.save_all(&mut store);
    w.add_new_crt();
    assert_eq!(w.get_crt_id_list().len(), 1);
    w.remove_collection(String::from("c"));
    w.reload_data(String::from("session"), &store);
    // collections came back from the store; the open tab survived the reload
    assert_eq!(w.get_collection_names(), vec![String::from("c")]);
    assert_eq!(w.get_crt_id_list().len(), 1);
}

#[test]
fn load_all_of_unknown_workspace_comes_up_empty() {
    let store = PersistStore::new();
    let mut w = ws("x");
    w.add_new_crt();
    w.load_all(String::from("never-saved"), &store);
    assert_eq!(w.workspace_name, "never-saved");
    assert_eq!(w.get_collection_names().len(), 0);
    assert_eq!(w.get_crt_id_list().len(), 0);
}

#[test]
fn auto_save_crd_and_save_cookies_store_components() {
    let mut w = ws("s");
    w.add_new_crt();
    w.add_domain_cookies(cookie("example.test", "/", "sid", "1")).unwrap();
    let mut store = PersistStore::new();
    w.auto_save_crd(&mut store);
    w.save_cookies(&mut store);
    let mut back = ws("other");
    back.load_all(String::from("s"), &store);
    assert_eq!(back.get_crt_id_list().len(), 1);
    assert!(back.cookies_contain_domain(String::from("example.test")));
}

#[test]
fn header_rows_from_transport_tuples() {
    let rows = postcat_core::http::Header::new_from_tuple(vec![
        (String::from("content-type"), String::from("application/json")),
        (String::from("server"), String::from("test")),
    ]);
    assert_eq!(rows.len(), 2);
    assert_eq!(rows[0].key, "content-type");
    assert_eq!(rows[0].value, "application/json");
    assert!(rows[0].enable);
    assert_eq!(rows[1].key, "server");
}

#[test]
fn crt_env_auth_script_resolution_for_tabs() {
    let mut w = ws("w");
    let mut root = CollectionFolder::new(String::from("c"));
    root.pre_request_scripts.push(String::from("R"));
    root.auth = postcat_core::auth::Auth {
        auth_type: postcat_core::auth::AuthType::BearerToken,
        basic_username: String::new(),
        basic_password: String::new(),
        bearer_token: String::from("SECRET-REDACTED"),
    };
    w.add_collection(Collection { folder: root });
    w.add_new_crt();
    let id = w.get_crt_id_list()[0].clone();
    // scratch tab: no inherited auth or scripts
    assert_eq!(
        w.get_crt_parent_auth(id.clone()).auth_type,
        postcat_core::auth::AuthType::NoAuth
    );
    let (pre, test) = w.get_crt_parent_scripts(id.clone());
    assert_eq!((pre.len(), test.len()), (0, 0));
    // bind the tab to the collection
    let mut tab = w.must_get_crt(id.clone());
    tab.collection_path = Some(String::from("c"));
    w.must_get_mut_crt(id.clone(), tab);
    assert_eq!(
        w.get_crt_parent_auth(id.clone()).auth_type,
        postcat_core::auth::AuthType::BearerToken
    );
    let (pre, _) = w.get_crt_parent_scripts(id.clone());
    assert_eq!(pre.len(), 1);
    assert_eq!(pre[0].script, "R");
}

#[test]
fn url_cookie_of_same_name_later_path_overrides() {
    let mut w = ws("w");
    w.add_domain_cookies(cookie("example.test", "/", "sid", "old")).unwrap();
    w.add_domain_cookies(cookie("example.test", "/api", "sid", "new")).unwrap();
    let got = w.get_url_cookies(String::from("http://example.test/api"));
    assert_eq!(got.len(), 1);
    assert_eq!(got[0].0, "sid");
    assert_eq!(got[0].1.value, "new");
}

#[test]
fn closing_unselected_tab_keeps_selection() {
    let mut w = ws("w");
    w.add_new_crt();
    w.add_new_crt();
    let ids = w.get_crt_id_list();
    w.set_crt_select_id(Some(ids[0].clone()));
    w.close_crt(ids[1].clone());
    assert_eq!(w.get_crt_select_id(), Some(ids[0].clone()));
    assert_eq!(w.get_crt_id_list(), vec![ids[0].clone()]);
}

#[test]
fn env_config_crud_round_trip() {
    let mut w = ws("w");
    w.add_env(
        String::from("E"),
        EnvironmentConfig { items: vec![env_item("k", "v", true)] },
    );
    let got = w.get_env(String::from("E")).expect("config");
    assert_eq!(got.items.len(), 1);
    assert_eq!(got.items[0].key, "k");
    assert_eq!(w.get_env_configs().len(), 1);
    w.remove_env(String::from("E"));
    assert!(w.get_env(String::from("E")).is_none());
    assert_eq!(w.get_env_configs().len(), 0);
}

#[test]
fn empty_path_resolves_nothing() {
    let w = ws("w");
    let (rest, f) = w.get_folder_with_path(String::from(""));
    assert_eq!(rest, "");
    assert!(f.is_none());
}

#[test]
fn send_result_updates_tab_jar_and_history() {
    let mut w = ws("w");
    w.add_new_crt();
    let id = w.get_crt_id_list()[0].clone();
    let response = postcat_core::http::Response {
        ok: true,
        status: 200,
        status_text: String::from("OK"),
        url: String::from("http://example.test/users"),
        headers: postcat_core::http::Header::new_from_tuple(vec![(
            String::from("content-type"),
            String::from("application/json"),
        )]),
        body: vec![123, 125],
    };
    w.apply_send_result(id.clone(), response, vec![cookie("example.test", "/", "sid", "9")]);
    let tab = w.must_get_crt(id);
    assert!(tab.rest.response.ok);
    assert_eq!(tab.rest.response.status, 200);
    assert_eq!(tab.rest.response.body, vec![123, 125]);
    // the response left the tab dirty against its baseline
    assert!(tab.is_modify());
    let row = w.get_domain_cookies(String::from("example.test")).expect("domain");
    assert_eq!(row[0].value, "9");
    let groups = w.get_history_group();
    assert_eq!(groups.len(), 1);
    assert_eq!(groups[0].1.len(), 1);
    assert_eq!(groups[0].1[0].response.status, 200);
}
