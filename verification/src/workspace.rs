use vstd::prelude::*;

use crate::auth::{Auth, AuthImage};
use crate::central::{
    crdl_add, crdl_duplicated, crdl_remove, crdl_rename, crdl_replace, crdl_save, crdl_wf,
    default_record_image, scratch_crt, CentralRequestDataList, CentralRequestItem, CrdlImage,
    CrtImage,
};
use crate::collections::{
    cols_insert_folder, cols_insert_record, cols_remove_folder, cols_remove_record,
    cols_update_folder, collections_auth, collections_pre_scripts, collections_test_scripts,
    find_child, remove_child, resolve_spec, upsert_child, Collection, CollectionFolder, Collections,
    FolderImage,
};
use crate::cookies::{
    jar_add, jar_remove_one, jar_update, jar_update_hits, url_cookie_map, url_host, url_path,
    Cookie, CookieImage, CookiesManager,
};
use crate::environment::{
    env_vars, Environment, EnvironmentConfig, EnvironmentImage, EnvironmentItemValue,
};
use crate::history::{group_of, groups_image, HistoryDataList, HistoryDate};
use crate::http::{HttpRecord, RecordImage};
use crate::kv::{assoc_get, assoc_index, assoc_upsert, assoc_remove};
use crate::path::path_segments;
use crate::persist::{empty_state_image, store_wf, PersistStore, WorkspaceState};
use crate::script::{ScriptScope, ScriptScopeImage};
use crate::utils::{build_copy_name, copy_name_spec, name_taken};

verus! {

broadcast use crate::views::lemma_vec_deep_view_index, crate::views::lemma_vec_deep_view_len;

/// The session: every component store under one roof, addressed by the
/// workspace's name. All resolution and mutation the editor needs goes
/// through here.
#[derive(Debug)]
pub struct WorkspaceData {
    pub workspace_name: String,
    pub cookies_manager: CookiesManager,
    pub central_request_data_list: CentralRequestDataList,
    pub history_data_list: HistoryDataList,
    pub environment: Environment,
    pub collections: Collections,
}

/// Mathematical image of a [`WorkspaceData`].
#[verifier::ext_equal]
pub struct WorkspaceImage {
    pub name: Seq<char>,
    pub cookies: Seq<(Seq<char>, Seq<CookieImage>)>,
    pub central: CrdlImage,
    pub history: Seq<(HistoryDate, RecordImage)>,
    pub environment: EnvironmentImage,
    pub collections: Seq<FolderImage>,
}

impl DeepView for WorkspaceData {
    type V = WorkspaceImage;

    open spec fn deep_view(&self) -> WorkspaceImage {
        WorkspaceImage {
            name: self.workspace_name.deep_view(),
            cookies: self.cookies_manager.deep_view(),
            central: self.central_request_data_list.deep_view(),
            history: self.history_data_list.deep_view(),
            environment: self.environment.deep_view(),
            collections: self.collections.deep_view(),
        }
    }
}

/// The workspace's invariant: its tab registry is well formed.
pub open spec fn ws_wf(w: WorkspaceImage) -> bool {
    crdl_wf(w.central)
}

/// One dated history entry; names the pair so contracts can quantify over
/// the date the clock gave.
pub open spec fn history_entry(d: HistoryDate, rec: RecordImage) -> (HistoryDate, RecordImage) {
    (d, rec)
}

/// The tab an unknown id resolves to: an empty scratch tab under an empty
/// id, never valid data.
pub open spec fn default_crt_image() -> CrtImage {
    scratch_crt(Seq::empty(), default_record_image())
}

/// What [`WorkspaceData::must_get_crt`] yields: the open tab, or the
/// default tab for an unknown id.
pub open spec fn crt_or_default(central: CrdlImage, id: Seq<char>) -> CrtImage {
    match assoc_get(central.map, id) {
        Some(c) => c,
        None => default_crt_image(),
    }
}

impl WorkspaceData {
    /// A fresh workspace of this name with empty component stores.
    pub fn new(workspace_name: String) -> (r: WorkspaceData)
        ensures
            r.deep_view() == (WorkspaceImage {
                name: workspace_name@,
                cookies: Seq::empty(),
                central: CrdlImage { select: None, order: Seq::empty(), map: Seq::empty() },
                history: Seq::empty(),
                environment: EnvironmentImage { select: None, data: Seq::empty() },
                collections: Seq::empty(),
            }),
            ws_wf(r.deep_view()),
    {
        let r = WorkspaceData {
            workspace_name,
            cookies_manager: CookiesManager::new(),
            central_request_data_list: CentralRequestDataList::new(),
            history_data_list: HistoryDataList::new(),
            environment: Environment::new(),
            collections: Collections::new(),
        };
        assert(r.deep_view() =~= (WorkspaceImage {
            name: r.workspace_name@,
            cookies: Seq::empty(),
            central: CrdlImage { select: None, order: Seq::empty(), map: Seq::empty() },
            history: Seq::empty(),
            environment: EnvironmentImage { select: None, data: Seq::empty() },
            collections: Seq::empty(),
        }));
        r
    }

    /// A point-in-time copy of the collection the first segment of a path
    /// names.
    pub fn get_collection(&self, option_path: Option<String>) -> (r: Option<Collection>)
        ensures
            match option_path {
                None => r is None,
                Some(p) => match r {
                    Some(c) => find_child(
                        self.deep_view().collections,
                        path_segments(p@)[0],
                    ) == Some(c.deep_view()),
                    None => find_child(self.deep_view().collections, path_segments(p@)[0])
                        is None,
                },
            },
    {
        let path = match option_path {
            None => {
                return None;
            },
            Some(p) => p,
        };
        let segs = crate::path::split_path(path.as_str());
        proof {
            assert(segs.deep_view()[0] == segs@[0]@);
        }
        self.collections.get_collection_by_name(&segs[0])
    }

    /// Resolves a path to its deepest folder and unmatched trailing name;
    /// see [`resolve_spec`].
    pub fn get_folder_with_path(&self, path: String) -> (r: (String, Option<CollectionFolder>))
        ensures
            ({
                let (rem, fo) = resolve_spec(self.deep_view().collections, path_segments(path@));
                match r.1 {
                    Some(f) => fo == Some(f.deep_view()) && r.0@ == rem,
                    None => fo is None && r.0@ == path@,
                }
            }),
    {
        self.collections.get_folder_with_path(path)
    }

    /// Writes a request into the folder at `folder_path`, overwriting any
    /// request of the same name there.
    pub fn collection_insert_http_record(&mut self, folder_path: String, record: HttpRecord)
        requires
            ws_wf(old(self).deep_view()),
        ensures
            final(self).deep_view() == (WorkspaceImage {
                collections: cols_insert_record(
                    old(self).deep_view().collections,
                    path_segments(folder_path@),
                    record.deep_view(),
                ),
                ..old(self).deep_view()
            }),
            ws_wf(final(self).deep_view()),
    {
        self.collections.insert_http_record(folder_path, record);
        assert(self.deep_view() =~= (WorkspaceImage {
            collections: self.collections.deep_view(),
            ..old(self).deep_view()
        }));
    }

    /// Removes the named request from the folder at `folder_path`.
    pub fn collection_remove_http_record(&mut self, folder_path: String, record_name: String)
        requires
            ws_wf(old(self).deep_view()),
        ensures
            final(self).deep_view() == (WorkspaceImage {
                collections: cols_remove_record(
                    old(self).deep_view().collections,
                    path_segments(folder_path@),
                    record_name@,
                ),
                ..old(self).deep_view()
            }),
            ws_wf(final(self).deep_view()),
    {
        self.collections.remove_http_record(folder_path, record_name);
        assert(self.deep_view() =~= (WorkspaceImage {
            collections: self.collections.deep_view(),
            ..old(self).deep_view()
        }));
    }

    /// Inserts a subfolder into the folder at `parent_path`, overwriting a
    /// subfolder of the same name.
    pub fn collection_insert_folder(&mut self, parent_path: String, folder: CollectionFolder)
        requires
            ws_wf(old(self).deep_view()),
        ensures
            final(self).deep_view() == (WorkspaceImage {
                collections: cols_insert_folder(
                    old(self).deep_view().collections,
                    path_segments(parent_path@),
                    folder.deep_view(),
                ),
                ..old(self).deep_view()
            }),
            ws_wf(final(self).deep_view()),
    {
        self.collections.insert_folder(parent_path, folder);
        assert(self.deep_view() =~= (WorkspaceImage {
            collections: self.collections.deep_view(),
            ..old(self).deep_view()
        }));
    }

    /// Ancestor-chain auth resolution for a path: the deepest folder on the
    /// matched chain that carries auth wins.
    pub fn get_collection_auth(&self, path: String) -> (r: Auth)
        ensures
            r.deep_view() == collections_auth(self.deep_view().collections, path_segments(path@)),
    {
        self.collections.get_auth(path)
    }

    /// The names of all collections, in store order; unique by the store's
    /// insert-by-name discipline.
    pub fn get_collection_names(&self) -> (r: Vec<String>)
        ensures
            r.deep_view().len() == self.deep_view().collections.len(),
            forall|i: int| 0 <= i < self.deep_view().collections.len() ==> #[trigger] r
                .deep_view()[i] == self.deep_view().collections[i].name,
    {
        self.collections.get_collection_names()
    }

    /// Adds a collection, overwriting one of the same name.
    pub fn add_collection(&mut self, collection: Collection)
        requires
            ws_wf(old(self).deep_view()),
        ensures
            final(self).deep_view() == (WorkspaceImage {
                collections: upsert_child(
                    old(self).deep_view().collections,
                    collection.deep_view(),
                ),
                ..old(self).deep_view()
            }),
            ws_wf(final(self).deep_view()),
    {
        self.collections.insert_collection(collection);
        assert(self.deep_view() =~= (WorkspaceImage {
            collections: self.collections.deep_view(),
            ..old(self).deep_view()
        }));
    }

    /// Brings in a collection from outside: on a name collision the
    /// incoming root is renamed by suffixing, so nothing is overwritten;
    /// the name finally used is returned.
    pub fn import_collection(&mut self, collection: Collection) -> (r: String)
        requires
            ws_wf(old(self).deep_view()),
        ensures
            ({
                let names = Seq::new(
                    old(self).deep_view().collections.len(),
                    |i: int| old(self).deep_view().collections[i].name,
                );
                &&& r@ == copy_name_spec(collection.deep_view().name, names)
                &&& !name_taken(names, r@)
                &&& final(self).deep_view() == (WorkspaceImage {
                    collections: old(self).deep_view().collections.push(
                        FolderImage { name: r@, ..collection.deep_view() },
                    ),
                    ..old(self).deep_view()
                })
            }),
            ws_wf(final(self).deep_view()),
    {
        let ghost cols0 = self.deep_view().collections;
        let ghost names = Seq::new(cols0.len(), |i: int| cols0[i].name);
        let existing = self.get_collection_names();
        proof {
            assert(existing.deep_view() =~= names);
        }
        let mut collection = collection;
        let ghost cin = collection.deep_view();
        let new_name = build_copy_name(collection.folder.name.clone(), &existing);
        collection.folder.name = new_name.clone();
        let ghost cv = collection.deep_view();
        proof {
            assert(cv =~= (FolderImage { name: new_name@, ..cin }));
            crate::collections::lemma_child_index(cols0, cv.name);
            match crate::collections::child_index(cols0, cv.name) {
                None => {},
                Some(j) => {
                    assert(cols0[j].name == names[j]);
                    assert(name_taken(names, cv.name));
                },
            }
        }
        self.collections.insert_collection(collection);
        proof {
            assert(self.collections.deep_view() == cols0.push(cv));
            assert(self.deep_view() =~= (WorkspaceImage {
                collections: cols0.push(cv),
                ..old(self).deep_view()
            }));
        }
        new_name
    }

    /// Removes a collection and its whole tree.
    pub fn remove_collection(&mut self, collection_name: String)
        requires
            ws_wf(old(self).deep_view()),
        ensures
            final(self).deep_view() == (WorkspaceImage {
                collections: remove_child(old(self).deep_view().collections, collection_name@),
                ..old(self).deep_view()
            }),
            ws_wf(final(self).deep_view()),
    {
        self.collections.remove_collection(collection_name);
        assert(self.deep_view() =~= (WorkspaceImage {
            collections: self.collections.deep_view(),
            ..old(self).deep_view()
        }));
    }

    /// Removes the named subfolder, and its subtree, from the folder at
    /// `parent_path`.
    pub fn remove_folder(&mut self, parent_path: String, name: String)
        requires
            ws_wf(old(self).deep_view()),
        ensures
            final(self).deep_view() == (WorkspaceImage {
                collections: cols_remove_folder(
                    old(self).deep_view().collections,
                    path_segments(parent_path@),
                    name@,
                ),
                ..old(self).deep_view()
            }),
            ws_wf(final(self).deep_view()),
    {
        self.collections.remove_folder(parent_path, name);
        assert(self.deep_view() =~= (WorkspaceImage {
            collections: self.collections.deep_view(),
            ..old(self).deep_view()
        }));
    }

    /// Point-in-time copies of all collections.
    pub fn get_collections(&self) -> (r: Vec<Collection>)
        ensures
            r.deep_view() == self.deep_view().collections,
    {
        self.collections.get_data()
    }

    /// Writes an edited folder copy back over the node at `folder_path`.
    pub fn update_collection_folder(&mut self, folder_path: String, folder: CollectionFolder)
        requires
            ws_wf(old(self).deep_view()),
        ensures
            final(self).deep_view() == (WorkspaceImage {
                collections: cols_update_folder(
                    old(self).deep_view().collections,
                    path_segments(folder_path@),
                    folder.deep_view(),
                ),
                ..old(self).deep_view()
            }),
            ws_wf(final(self).deep_view()),
    {
        self.collections.update_folder(folder_path, folder);
        assert(self.deep_view() =~= (WorkspaceImage {
            collections: self.collections.deep_view(),
            ..old(self).deep_view()
        }));
    }
}


impl WorkspaceData {
    /// The variable mapping of the selected environment; the collection
    /// argument is a forward hook and does not influence the result yet.
    pub fn get_build_envs(&self, collection: Option<Collection>) -> (r: Vec<
        (String, EnvironmentItemValue),
    >)
        ensures
            r.deep_view() == env_vars(self.deep_view().environment),
    {
        self.environment.get_variable_hash_map(collection)
    }

    /// The selected environment's name, if any.
    pub fn get_env_select(&self) -> (r: Option<String>)
        ensures
            r.deep_view() == self.deep_view().environment.select,
    {
        self.environment.select()
    }

    /// Selects an environment by name, or clears the selection; unknown
    /// names are kept and resolve to an empty mapping.
    pub fn set_env_select(&mut self, select: Option<String>)
        requires
            ws_wf(old(self).deep_view()),
        ensures
            final(self).deep_view() == (WorkspaceImage {
                environment: EnvironmentImage {
                    select: select.deep_view(),
                    ..old(self).deep_view().environment
                },
                ..old(self).deep_view()
            }),
            ws_wf(final(self).deep_view()),
    {
        self.environment.set_select(select);
        assert(self.deep_view() =~= (WorkspaceImage {
            environment: self.environment.deep_view(),
            ..old(self).deep_view()
        }));
    }

    /// Point-in-time copies of every environment config.
    pub fn get_env_configs(&self) -> (r: Vec<(String, EnvironmentConfig)>)
        ensures
            r.deep_view() == self.deep_view().environment.data,
    {
        self.environment.get_data()
    }

    /// A point-in-time copy of the named environment config.
    pub fn get_env(&self, key: String) -> (r: Option<EnvironmentConfig>)
        ensures
            match r {
                Some(c) => assoc_get(self.deep_view().environment.data, key@) == Some(
                    c.deep_view(),
                ),
                None => assoc_get(self.deep_view().environment.data, key@) is None,
            },
    {
        self.environment.get(key)
    }

    /// Adds or replaces the named environment config.
    pub fn add_env(&mut self, key: String, value: EnvironmentConfig)
        requires
            ws_wf(old(self).deep_view()),
        ensures
            final(self).deep_view() == (WorkspaceImage {
                environment: EnvironmentImage {
                    select: old(self).deep_view().environment.select,
                    data: assoc_upsert(
                        old(self).deep_view().environment.data,
                        key@,
                        value.deep_view(),
                    ),
                },
                ..old(self).deep_view()
            }),
            ws_wf(final(self).deep_view()),
    {
        self.environment.insert(key, value);
        assert(self.deep_view() =~= (WorkspaceImage {
            environment: self.environment.deep_view(),
            ..old(self).deep_view()
        }));
    }

    /// Removes the named environment config.
    pub fn remove_env(&mut self, key: String)
        requires
            ws_wf(old(self).deep_view()),
        ensures
            final(self).deep_view() == (WorkspaceImage {
                environment: EnvironmentImage {
                    select: old(self).deep_view().environment.select,
                    data: assoc_remove(old(self).deep_view().environment.data, key@),
                },
                ..old(self).deep_view()
            }),
            ws_wf(final(self).deep_view()),
    {
        self.environment.remove(key);
        assert(self.deep_view() =~= (WorkspaceImage {
            environment: self.environment.deep_view(),
            ..old(self).deep_view()
        }));
    }

    /// The history grouped by date, dates in order of first appearance.
    pub fn get_history_group(&self) -> (r: Vec<(HistoryDate, Vec<HttpRecord>)>)
        ensures
            groups_image(r@) == group_of(self.deep_view().history),
    {
        self.history_data_list.get_group()
    }

    /// Appends a sent request to the history under the date the clock gives
    /// now.
    pub fn history_record(&mut self, rest: HttpRecord)
        requires
            ws_wf(old(self).deep_view()),
        ensures
            exists|d: HistoryDate|
                final(self).deep_view().history == old(self).deep_view().history.push(
                    (#[trigger] history_entry(d, rest.deep_view())),
                ),
            final(self).deep_view() == (WorkspaceImage {
                history: final(self).deep_view().history,
                ..old(self).deep_view()
            }),
            ws_wf(final(self).deep_view()),
    {
        let ghost w0 = self.deep_view();
        self.history_data_list.record(rest);
        proof {
            let d = choose|d: HistoryDate|
                self.history_data_list.deep_view() == w0.history.push((d, rest.deep_view()));
            assert(history_entry(d, rest.deep_view()) == (d, rest.deep_view()));
            assert(self.deep_view() =~= (WorkspaceImage {
                history: w0.history.push((d, rest.deep_view())),
                ..w0
            }));
        }
    }

    /// The name-keyed cookies applicable to a URL.
    pub fn get_url_cookies(&self, url: String) -> (r: Vec<(String, Cookie)>)
        ensures
            ({
                let host = url_host(url@);
                let upath = url_path(url@);
                match assoc_index(self.deep_view().cookies, host) {
                    None => r.deep_view() == Seq::<(Seq<char>, CookieImage)>::empty(),
                    Some(j) => r.deep_view() == url_cookie_map(
                        self.deep_view().cookies[j].1,
                        host,
                        upath,
                    ),
                }
            }),
    {
        self.cookies_manager.get_url_cookies(url)
    }

    /// Whether any cookie is stored for this domain.
    pub fn cookies_contain_domain(&self, domain: String) -> (r: bool)
        ensures
            r == (assoc_index(self.deep_view().cookies, domain@) is Some),
    {
        self.cookies_manager.contain_domain(domain)
    }

    /// Whether the domain stores a cookie of this name.
    pub fn cookies_contain_domain_key(&self, domain: String, key: String) -> (r: bool)
        ensures
            r == jar_update_hits(self.deep_view().cookies, domain@, key@),
    {
        self.cookies_manager.contain_domain_key(domain, key)
    }

    /// Stores a cookie under its domain, path and name; always succeeds,
    /// overwriting a same-keyed cookie.
    pub fn add_domain_cookies(&mut self, cookie: Cookie) -> (r: Result<(), String>)
        requires
            ws_wf(old(self).deep_view()),
        ensures
            r is Ok,
            final(self).deep_view() == (WorkspaceImage {
                cookies: jar_add(old(self).deep_view().cookies, cookie.deep_view()),
                ..old(self).deep_view()
            }),
            ws_wf(final(self).deep_view()),
    {
        let r = self.cookies_manager.add_domain_cookies(cookie);
        assert(self.deep_view() =~= (WorkspaceImage {
            cookies: self.cookies_manager.deep_view(),
            ..old(self).deep_view()
        }));
        r
    }

    /// The stored cookie domains, in store order.
    pub fn get_cookie_domains(&self) -> (r: Vec<String>)
        ensures
            r.deep_view().len() == self.deep_view().cookies.len(),
            forall|i: int| 0 <= i < self.deep_view().cookies.len() ==> #[trigger] r.deep_view()[i]
                == self.deep_view().cookies[i].0,
    {
        self.cookies_manager.get_cookie_domains()
    }

    /// Point-in-time copies of one domain's cookies.
    pub fn get_domain_cookies(&self, domain: String) -> (r: Option<Vec<Cookie>>)
        ensures
            match r {
                Some(cs) => assoc_get(self.deep_view().cookies, domain@) == Some(cs.deep_view()),
                None => assoc_get(self.deep_view().cookies, domain@) is None,
            },
    {
        self.cookies_manager.get_domain_cookies(domain)
    }

    /// Drops every cookie of a domain.
    pub fn remove_cookie_domain(&mut self, domain: String)
        requires
            ws_wf(old(self).deep_view()),
        ensures
            final(self).deep_view() == (WorkspaceImage {
                cookies: assoc_remove(old(self).deep_view().cookies, domain@),
                ..old(self).deep_view()
            }),
            ws_wf(final(self).deep_view()),
    {
        self.cookies_manager.remove_domain(domain);
        assert(self.deep_view() =~= (WorkspaceImage {
            cookies: self.cookies_manager.deep_view(),
            ..old(self).deep_view()
        }));
    }

    /// Drops one cookie by domain, path and name.
    pub fn remove_cookie_domain_path_name(&mut self, domain: String, path: String, name: String)
        requires
            ws_wf(old(self).deep_view()),
        ensures
            final(self).deep_view() == (WorkspaceImage {
                cookies: jar_remove_one(old(self).deep_view().cookies, domain@, path@, name@),
                ..old(self).deep_view()
            }),
            ws_wf(final(self).deep_view()),
    {
        self.cookies_manager.remove_domain_path_name(domain, path, name);
        assert(self.deep_view() =~= (WorkspaceImage {
            cookies: self.cookies_manager.deep_view(),
            ..old(self).deep_view()
        }));
    }

    /// Replaces the first cookie of that name in the domain; a missing
    /// domain or name is a reported failure that leaves the jar unchanged.
    pub fn update_domain_cookies(&mut self, cookie: Cookie, domain: String, name: String) -> (r:
        Result<(), String>)
        requires
            ws_wf(old(self).deep_view()),
        ensures
            r is Ok <==> jar_update_hits(old(self).deep_view().cookies, domain@, name@),
            final(self).deep_view() == (WorkspaceImage {
                cookies: jar_update(
                    old(self).deep_view().cookies,
                    cookie.deep_view(),
                    domain@,
                    name@,
                ),
                ..old(self).deep_view()
            }),
            ws_wf(final(self).deep_view()),
    {
        let r = self.cookies_manager.update_domain_cookies(cookie, domain, name);
        assert(self.deep_view() =~= (WorkspaceImage {
            cookies: self.cookies_manager.deep_view(),
            ..old(self).deep_view()
        }));
        r
    }
}


impl WorkspaceData {
    /// Saves a tab into the folder at `collection_path`: the record goes
    /// into the tree by last-write-wins, the tab takes it as working copy
    /// and baseline, binds to the path, and its identity moves to the
    /// path-derived id. A tab or folder that cannot be found leaves
    /// everything unchanged.
    pub fn save_crt(&mut self, crt_id: String, collection_path: String, record: HttpRecord)
        requires
            ws_wf(old(self).deep_view()),
        ensures
            ({
                let w0 = old(self).deep_view();
                let segs = path_segments(collection_path@);
                let (rem, fo) = resolve_spec(w0.collections, segs);
                if assoc_index(w0.central.map, crt_id@) is Some && fo is Some && rem
                    == Seq::<char>::empty() {
                    final(self).deep_view() == (WorkspaceImage {
                        collections: cols_insert_record(w0.collections, segs, record.deep_view()),
                        central: crdl_save(w0.central, crt_id@, collection_path@,
                        record.deep_view()),
                        ..w0
                    })
                } else {
                    final(self).deep_view() == w0
                }
            }),
            ws_wf(final(self).deep_view()),
    {
        let ghost w0 = self.deep_view();
        if !self.central_request_data_list.contains_id(&crt_id) {
            return;
        }
        let probe = self.collections.get_folder_with_path(collection_path.clone());
        let folder_found = match &probe.1 {
            Some(_) => probe.0.as_str().unicode_len() == 0,
            None => false,
        };
        proof {
            if probe.0@.len() == 0 {
                assert(probe.0@ =~= Seq::<char>::empty());
            }
        }
        if !folder_found {
            return;
        }
        let saved = record.deep_copy();
        self.collections.insert_http_record(collection_path.clone(), saved);
        self.central_request_data_list.save_tab(crt_id, collection_path, record);
        proof {
            assert(self.deep_view() =~= (WorkspaceImage {
                collections: self.collections.deep_view(),
                central: self.central_request_data_list.deep_view(),
                ..w0
            }));
        }
    }

    /// Replaces the tab open under `id` with an edited copy, which keeps
    /// that id; an unknown id is a no-op.
    pub fn must_get_mut_crt(&mut self, id: String, crt: CentralRequestItem)
        requires
            ws_wf(old(self).deep_view()),
        ensures
            final(self).deep_view() == (WorkspaceImage {
                central: crdl_replace(old(self).deep_view().central, id@, crt.deep_view()),
                ..old(self).deep_view()
            }),
            ws_wf(final(self).deep_view()),
    {
        self.central_request_data_list.replace_crt(id, crt);
        assert(self.deep_view() =~= (WorkspaceImage {
            central: self.central_request_data_list.deep_view(),
            ..old(self).deep_view()
        }));
    }

    /// The variable mapping that applies to a tab: the selected
    /// environment's variables.
    pub fn get_crt_envs(&self, id: String) -> (r: Vec<(String, EnvironmentItemValue)>)
        ensures
            r.deep_view() == env_vars(self.deep_view().environment),
    {
        let crt = self.must_get_crt(id);
        let collection = match &crt.collection_path {
            None => None,
            Some(p) => self.get_collection(Some(p.clone())),
        };
        self.get_build_envs(collection)
    }

    /// The auth a tab inherits: nothing for a scratch tab, else the
    /// ancestor-chain resolution along its collection path.
    pub fn get_crt_parent_auth(&self, id: String) -> (r: Auth)
        ensures
            ({
                let c = crt_or_default(self.deep_view().central, id@);
                match c.collection_path {
                    None => r.deep_view() == AuthImage::no_auth(),
                    Some(p) => r.deep_view() == collections_auth(
                        self.deep_view().collections,
                        path_segments(p),
                    ),
                }
            }),
    {
        let crt = self.must_get_crt(id);
        match &crt.collection_path {
            None => Auth::no_auth(),
            Some(collection_path) => self.get_collection_auth(collection_path.clone()),
        }
    }

    /// The scripts a tab inherits, root to leaf: empty for a scratch tab,
    /// else the gathering along its collection path.
    pub fn get_crt_parent_scripts(&self, id: String) -> (r: (Vec<ScriptScope>, Vec<ScriptScope>))
        ensures
            ({
                let c = crt_or_default(self.deep_view().central, id@);
                match c.collection_path {
                    None => r.0.deep_view() == Seq::<ScriptScopeImage>::empty()
                        && r.1.deep_view() == Seq::<ScriptScopeImage>::empty(),
                    Some(p) => r.0.deep_view() == collections_pre_scripts(
                        self.deep_view().collections,
                        path_segments(p),
                    ) && r.1.deep_view() == collections_test_scripts(
                        self.deep_view().collections,
                        path_segments(p),
                    ),
                }
            }),
    {
        let crt = self.must_get_crt(id);
        match &crt.collection_path {
            None => {
                let pre: Vec<ScriptScope> = Vec::new();
                let test: Vec<ScriptScope> = Vec::new();
                proof {
                    assert(pre.deep_view() =~= Seq::<ScriptScopeImage>::empty());
                    assert(test.deep_view() =~= Seq::<ScriptScopeImage>::empty());
                }
                (pre, test)
            },
            Some(collection_path) => self.collections.get_path_scripts(collection_path.clone()),
        }
    }

    /// The selected tab's id, if any.
    pub fn get_crt_select_id(&self) -> (r: Option<String>)
        ensures
            r.deep_view() == self.deep_view().central.select,
    {
        self.central_request_data_list.get_select()
    }

    /// Selects an open tab, or clears the selection; the id must name an
    /// open tab.
    pub fn set_crt_select_id(&mut self, select_id: Option<String>)
        requires
            ws_wf(old(self).deep_view()),
            match select_id {
                None => true,
                Some(sid) => assoc_index(old(self).deep_view().central.map, sid@) is Some,
            },
        ensures
            final(self).deep_view() == (WorkspaceImage {
                central: CrdlImage {
                    select: select_id.deep_view(),
                    ..old(self).deep_view().central
                },
                ..old(self).deep_view()
            }),
            ws_wf(final(self).deep_view()),
    {
        self.central_request_data_list.set_select(select_id);
        assert(self.deep_view() =~= (WorkspaceImage {
            central: self.central_request_data_list.deep_view(),
            ..old(self).deep_view()
        }));
    }

    /// The open tabs' ids in tab order.
    pub fn get_crt_id_list(&self) -> (r: Vec<String>)
        ensures
            r.deep_view() == self.deep_view().central.order,
    {
        self.central_request_data_list.get_id_list()
    }

    /// The open tabs' ids; the order carries no duplicates, so the list is
    /// the set.
    pub fn get_crt_id_set(&self) -> (r: Vec<String>)
        ensures
            r.deep_view() == self.deep_view().central.order,
    {
        self.central_request_data_list.get_id_list()
    }

    /// A point-in-time copy of the tab under this id.
    pub fn get_crt_cloned(&self, id: String) -> (r: Option<CentralRequestItem>)
        ensures
            match r {
                Some(c) => assoc_get(self.deep_view().central.map, id@) == Some(c.deep_view()),
                None => assoc_get(self.deep_view().central.map, id@) is None,
            },
    {
        self.central_request_data_list.get_crt_cloned(&id)
    }

    /// A point-in-time copy of the tab under this id, or the default tab
    /// for an unknown id — operator error, never valid data.
    pub fn must_get_crt(&self, id: String) -> (r: CentralRequestItem)
        ensures
            r.deep_view() == crt_or_default(self.deep_view().central, id@),
    {
        match self.central_request_data_list.get_crt_cloned(&id) {
            Some(c) => c,
            None => {
                let rec = crate::central::default_record();
                let baseline = rec.deep_copy();
                let r = CentralRequestItem {
                    id: String::new(),
                    collection_path: None,
                    rest: rec,
                    baseline,
                    test_result: crate::central::TestResult { test_info_list: Vec::new() },
                };
                assert(r.deep_view() =~= default_crt_image());
                r
            },
        }
    }

    /// Opens a tab, or replaces the tab already open under the same id.
    pub fn add_crt(&mut self, crt: CentralRequestItem)
        requires
            ws_wf(old(self).deep_view()),
        ensures
            final(self).deep_view() == (WorkspaceImage {
                central: crdl_add(old(self).deep_view().central, crt.deep_view()),
                ..old(self).deep_view()
            }),
            ws_wf(final(self).deep_view()),
    {
        self.central_request_data_list.add_crt(crt);
        assert(self.deep_view() =~= (WorkspaceImage {
            central: self.central_request_data_list.deep_view(),
            ..old(self).deep_view()
        }));
    }

    /// Closes every tab and clears the selection.
    pub fn close_all_crt(&mut self)
        requires
            ws_wf(old(self).deep_view()),
        ensures
            final(self).deep_view() == (WorkspaceImage {
                central: CrdlImage { select: None, order: Seq::empty(), map: Seq::empty() },
                ..old(self).deep_view()
            }),
            ws_wf(final(self).deep_view()),
    {
        self.central_request_data_list.clear();
        assert(self.deep_view() =~= (WorkspaceImage {
            central: self.central_request_data_list.deep_view(),
            ..old(self).deep_view()
        }));
    }

    /// Keeps only the tab under this id, selected; an unknown id is a
    /// no-op.
    pub fn close_other_crt(&mut self, id: String)
        requires
            ws_wf(old(self).deep_view()),
        ensures
            ({
                let w0 = old(self).deep_view();
                match assoc_get(w0.central.map, id@) {
                    None => final(self).deep_view() == w0,
                    Some(c) => final(self).deep_view() == (WorkspaceImage {
                        central: CrdlImage {
                            select: Some(id@),
                            order: seq![id@],
                            map: seq![(id@, c)],
                        },
                        ..w0
                    }),
                }
            }),
            ws_wf(final(self).deep_view()),
    {
        let ghost w0 = self.deep_view();
        let retain = match self.central_request_data_list.get_crt_cloned(&id) {
            None => {
                return;
            },
            Some(c) => c,
        };
        proof {
            crate::kv::lemma_assoc_index(w0.central.map, id@);
        }
        self.central_request_data_list.clear();
        self.central_request_data_list.add_crt(retain);
        proof {
            assert(self.central_request_data_list.deep_view().map =~= seq![
                (id@, assoc_get(w0.central.map, id@)->0),
            ]);
            assert(self.central_request_data_list.deep_view().order =~= seq![id@]);
            crate::kv::lemma_assoc_index(self.central_request_data_list.deep_view().map, id@);
        }
        self.central_request_data_list.set_select(Some(id));
        proof {
            assert(self.deep_view() =~= (WorkspaceImage {
                central: self.central_request_data_list.deep_view(),
                ..w0
            }));
        }
    }

    /// Closes the tab under this id; a selection pointing at it is
    /// cleared, never reassigned.
    pub fn close_crt(&mut self, id: String)
        requires
            ws_wf(old(self).deep_view()),
        ensures
            final(self).deep_view() == (WorkspaceImage {
                central: crdl_remove(old(self).deep_view().central, id@),
                ..old(self).deep_view()
            }),
            ws_wf(final(self).deep_view()),
    {
        self.central_request_data_list.remove(id);
        assert(self.deep_view() =~= (WorkspaceImage {
            central: self.central_request_data_list.deep_view(),
            ..old(self).deep_view()
        }));
    }

    /// Duplicates the tab under this id into a scratch tab under a freshly
    /// generated id, whatever the source's path was.
    pub fn duplicate_crt(&mut self, id: String)
        requires
            ws_wf(old(self).deep_view()),
        ensures
            crdl_duplicated(
                old(self).deep_view().central,
                id@,
                final(self).deep_view().central,
            ),
            final(self).deep_view() == (WorkspaceImage {
                central: final(self).deep_view().central,
                ..old(self).deep_view()
            }),
            ws_wf(final(self).deep_view()),
    {
        self.central_request_data_list.duplicate(id);
        assert(self.deep_view() =~= (WorkspaceImage {
            central: self.central_request_data_list.deep_view(),
            ..old(self).deep_view()
        }));
    }

    /// Opens a fresh scratch tab under a newly generated id.
    pub fn add_new_crt(&mut self)
        requires
            ws_wf(old(self).deep_view()),
        ensures
            exists|idv: Seq<char>|
                final(self).deep_view().central == crdl_add(
                    old(self).deep_view().central,
                    #[trigger] scratch_crt(idv, default_record_image()),
                ),
            final(self).deep_view() == (WorkspaceImage {
                central: final(self).deep_view().central,
                ..old(self).deep_view()
            }),
            ws_wf(final(self).deep_view()),
    {
        self.central_request_data_list.add_new();
        assert(self.deep_view() =~= (WorkspaceImage {
            central: self.central_request_data_list.deep_view(),
            ..old(self).deep_view()
        }));
    }

    /// Whether a tab is open under this id.
    pub fn contains_crt_id(&self, crt_id: String) -> (r: bool)
        ensures
            r == (assoc_index(self.deep_view().central.map, crt_id@) is Some),
    {
        self.central_request_data_list.contains_id(&crt_id)
    }

    /// Tracks a rename of a saved request: every tab bound to it takes the
    /// new name, and the tab whose identity derived from the old name
    /// follows.
    pub fn update_crt_old_name_to_new_name(
        &mut self,
        path: String,
        old_name: String,
        new_name: String,
    )
        requires
            ws_wf(old(self).deep_view()),
        ensures
            final(self).deep_view() == (WorkspaceImage {
                central: crdl_rename(
                    old(self).deep_view().central,
                    path@,
                    old_name@,
                    new_name@,
                ),
                ..old(self).deep_view()
            }),
            ws_wf(final(self).deep_view()),
    {
        self.central_request_data_list.update_old_name_to_new_name(path, old_name, new_name);
        assert(self.deep_view() =~= (WorkspaceImage {
            central: self.central_request_data_list.deep_view(),
            ..old(self).deep_view()
        }));
    }
}


impl WorkspaceData {
    /// A point-in-time copy of all five component states, as the
    /// persistence collaborator stores them.
    pub fn snapshot(&self) -> (r: WorkspaceState)
        ensures
            r.deep_view() == (crate::persist::WorkspaceStateImage {
                collections: self.deep_view().collections,
                environment: self.deep_view().environment,
                cookies: self.deep_view().cookies,
                history: self.deep_view().history,
                central: self.deep_view().central,
            }),
    {
        let r = WorkspaceState {
            collections: self.collections.deep_copy(),
            environment: self.environment.deep_copy(),
            cookies: self.cookies_manager.deep_copy(),
            history: self.history_data_list.deep_copy(),
            central: self.central_request_data_list.deep_copy(),
        };
        assert(r.deep_view() =~= (crate::persist::WorkspaceStateImage {
            collections: self.deep_view().collections,
            environment: self.deep_view().environment,
            cookies: self.deep_view().cookies,
            history: self.deep_view().history,
            central: self.deep_view().central,
        }));
        r
    }

    /// Saves the whole workspace state under its name.
    pub fn save_all(&self, store: &mut PersistStore)
        requires
            ws_wf(self.deep_view()),
            store_wf(old(store).deep_view()),
        ensures
            final(store).deep_view() == assoc_upsert(
                old(store).deep_view(),
                self.deep_view().name,
                crate::persist::WorkspaceStateImage {
                    collections: self.deep_view().collections,
                    environment: self.deep_view().environment,
                    cookies: self.deep_view().cookies,
                    history: self.deep_view().history,
                    central: self.deep_view().central,
                },
            ),
            store_wf(final(store).deep_view()),
    {
        let state = self.snapshot();
        store.save(self.workspace_name.clone(), state);
    }

    /// Saves the tab registry under the workspace's name, as happens after
    /// every tab operation.
    pub fn auto_save_crd(&self, store: &mut PersistStore)
        requires
            ws_wf(self.deep_view()),
            store_wf(old(store).deep_view()),
        ensures
            final(store).deep_view() == crate::persist::store_set_central(
                old(store).deep_view(),
                self.deep_view().name,
                self.deep_view().central,
            ),
            store_wf(final(store).deep_view()),
    {
        store.save_central(
            self.workspace_name.clone(),
            self.central_request_data_list.deep_copy(),
        );
    }

    /// Saves the cookie jar under the workspace's name.
    pub fn save_cookies(&self, store: &mut PersistStore)
        requires
            store_wf(old(store).deep_view()),
        ensures
            final(store).deep_view() == crate::persist::store_set_cookies(
                old(store).deep_view(),
                self.deep_view().name,
                self.deep_view().cookies,
            ),
            store_wf(final(store).deep_view()),
    {
        store.save_cookies(self.workspace_name.clone(), self.cookies_manager.deep_copy());
    }

    /// Loads every component store saved under a workspace identifier,
    /// open tabs included; a workspace nothing was saved for comes up
    /// empty. Loading twice from the same store changes nothing more.
    pub fn load_all(&mut self, workspace: String, store: &PersistStore)
        requires
            store_wf(store.deep_view()),
        ensures
            ({
                let w1 = final(self).deep_view();
                match assoc_get(store.deep_view(), workspace@) {
                    Some(st) => w1 == (WorkspaceImage {
                        name: workspace@,
                        cookies: st.cookies,
                        central: st.central,
                        history: st.history,
                        environment: st.environment,
                        collections: st.collections,
                    }),
                    None => w1 == (WorkspaceImage {
                        name: workspace@,
                        cookies: Seq::empty(),
                        central: CrdlImage {
                            select: None,
                            order: Seq::empty(),
                            map: Seq::empty(),
                        },
                        history: Seq::empty(),
                        environment: EnvironmentImage { select: None, data: Seq::empty() },
                        collections: Seq::empty(),
                    }),
                }
            }),
            ws_wf(final(self).deep_view()),
    {
        match store.load(&workspace) {
            Some(st) => {
                self.workspace_name = workspace;
                self.collections = st.collections;
                self.environment = st.environment;
                self.cookies_manager = st.cookies;
                self.history_data_list = st.history;
                self.central_request_data_list = st.central;
                proof {
                    assert(self.deep_view() =~= (WorkspaceImage {
                        name: self.workspace_name@,
                        cookies: self.cookies_manager.deep_view(),
                        central: self.central_request_data_list.deep_view(),
                        history: self.history_data_list.deep_view(),
                        environment: self.environment.deep_view(),
                        collections: self.collections.deep_view(),
                    }));
                }
            },
            None => {
                self.workspace_name = workspace;
                self.collections = Collections::new();
                self.environment = Environment::new();
                self.cookies_manager = CookiesManager::new();
                self.history_data_list = HistoryDataList::new();
                self.central_request_data_list = CentralRequestDataList::new();
                proof {
                    assert(self.deep_view() =~= (WorkspaceImage {
                        name: self.workspace_name@,
                        cookies: Seq::empty(),
                        central: CrdlImage {
                            select: None,
                            order: Seq::empty(),
                            map: Seq::empty(),
                        },
                        history: Seq::empty(),
                        environment: EnvironmentImage { select: None, data: Seq::empty() },
                        collections: Seq::empty(),
                    }));
                }
            },
        }
    }

    /// As [`WorkspaceData::load_all`], but open tabs are a session concern
    /// and stay as they are.
    pub fn reload_data(&mut self, workspace: String, store: &PersistStore)
        requires
            ws_wf(old(self).deep_view()),
            store_wf(store.deep_view()),
        ensures
            ({
                let w1 = final(self).deep_view();
                match assoc_get(store.deep_view(), workspace@) {
                    Some(st) => w1 == (WorkspaceImage {
                        name: workspace@,
                        cookies: st.cookies,
                        central: old(self).deep_view().central,
                        history: st.history,
                        environment: st.environment,
                        collections: st.collections,
                    }),
                    None => w1 == (WorkspaceImage {
                        name: workspace@,
                        cookies: Seq::empty(),
                        central: old(self).deep_view().central,
                        history: Seq::empty(),
                        environment: EnvironmentImage { select: None, data: Seq::empty() },
                        collections: Seq::empty(),
                    }),
                }
            }),
            ws_wf(final(self).deep_view()),
    {
        match store.load(&workspace) {
            Some(st) => {
                self.workspace_name = workspace;
                self.collections = st.collections;
                self.environment = st.environment;
                self.cookies_manager = st.cookies;
                self.history_data_list = st.history;
                proof {
                    assert(self.deep_view() =~= (WorkspaceImage {
                        name: self.workspace_name@,
                        cookies: self.cookies_manager.deep_view(),
                        central: old(self).deep_view().central,
                        history: self.history_data_list.deep_view(),
                        environment: self.environment.deep_view(),
                        collections: self.collections.deep_view(),
                    }));
                }
            },
            None => {
                self.workspace_name = workspace;
                self.collections = Collections::new();
                self.environment = Environment::new();
                self.cookies_manager = CookiesManager::new();
                self.history_data_list = HistoryDataList::new();
                proof {
                    assert(self.deep_view() =~= (WorkspaceImage {
                        name: self.workspace_name@,
                        cookies: Seq::empty(),
                        central: old(self).deep_view().central,
                        history: Seq::empty(),
                        environment: EnvironmentImage { select: None, data: Seq::empty() },
                        collections: Seq::empty(),
                    }));
                }
            },
        }
    }
}


/// The persistence round trip at the workspace level: what a load finds
/// under a workspace's name right after its state was saved is exactly the
/// component states that were saved — collections, environment, cookie
/// jar, history and open tabs alike — whatever the store held before.
pub proof fn lemma_workspace_round_trip(
    s: Seq<(Seq<char>, crate::persist::WorkspaceStateImage)>,
    w: WorkspaceImage,
)
    ensures
        ({
            let st = crate::persist::WorkspaceStateImage {
                collections: w.collections,
                environment: w.environment,
                cookies: w.cookies,
                history: w.history,
                central: w.central,
            };
            assoc_get(assoc_upsert(s, w.name, st), w.name) == Some(st)
        }),
{
    let st = crate::persist::WorkspaceStateImage {
        collections: w.collections,
        environment: w.environment,
        cookies: w.cookies,
        history: w.history,
        central: w.central,
    };
    crate::persist::lemma_store_round_trip(s, w.name, st);
}


/// A cookie store after a whole row of response cookies is added in order.
pub open spec fn jar_add_all(
    s: Seq<(Seq<char>, Seq<CookieImage>)>,
    cs: Seq<CookieImage>,
) -> Seq<(Seq<char>, Seq<CookieImage>)>
    decreases cs.len(),
{
    if cs.len() == 0 {
        s
    } else {
        jar_add(jar_add_all(s, cs.drop_last()), cs.last())
    }
}

impl WorkspaceData {
    /// Folds a completed send into the session: the tab under `id` takes
    /// the response into its working copy, every cookie the response set
    /// goes into the jar in order, and the record as sent is appended to
    /// the history. An unknown id changes nothing. The transport that
    /// produced the response and parsed its cookies stays outside this
    /// crate.
    pub fn apply_send_result(
        &mut self,
        id: String,
        response: crate::http::Response,
        response_cookies: Vec<Cookie>,
    )
        requires
            ws_wf(old(self).deep_view()),
        ensures
            ({
                let w0 = old(self).deep_view();
                let w1 = final(self).deep_view();
                match assoc_get(w0.central.map, id@) {
                    None => w1 == w0,
                    Some(c) => {
                        let updated = CrtImage {
                            rest: RecordImage { response: response.deep_view(), ..c.rest },
                            ..c
                        };
                        &&& w1.central == crdl_replace(w0.central, id@, updated)
                        &&& w1.cookies == jar_add_all(w0.cookies, response_cookies.deep_view())
                        &&& exists|d: HistoryDate|
                            w1.history == w0.history.push(
                                (#[trigger] history_entry(d, updated.rest)),
                            )
                        &&& w1.name == w0.name
                        &&& w1.environment == w0.environment
                        &&& w1.collections == w0.collections
                    },
                }
            }),
            ws_wf(final(self).deep_view()),
    {
        let ghost w0 = self.deep_view();
        let mut tab = match self.central_request_data_list.get_crt_cloned(&id) {
            None => {
                return;
            },
            Some(t) => t,
        };
        let ghost c = tab.deep_view();
        tab.rest.response = response;
        let ghost updated = tab.deep_view();
        proof {
            assert(updated =~= (CrtImage {
                rest: RecordImage { response: response.deep_view(), ..c.rest },
                ..c
            }));
        }
        let sent = tab.rest.deep_copy();
        self.central_request_data_list.replace_crt(id, tab);
        let ghost c1 = self.central_request_data_list.deep_view();
        let ghost csv = response_cookies.deep_view();
        let mut i: usize = 0;
        proof {
            assert(csv.subrange(0, 0) =~= Seq::<CookieImage>::empty());
        }
        while i < response_cookies.len()
            invariant
                i <= response_cookies@.len(),
                csv == response_cookies.deep_view(),
                self.cookies_manager.deep_view() == jar_add_all(
                    w0.cookies,
                    csv.subrange(0, i as int),
                ),
                self.central_request_data_list.deep_view() == c1,
                crdl_wf(c1),
                self.workspace_name@ == w0.name,
                self.history_data_list.deep_view() == w0.history,
                self.environment.deep_view() == w0.environment,
                self.collections.deep_view() == w0.collections,
            decreases response_cookies@.len() - i,
        {
            let ghost pre = csv.subrange(0, i as int);
            let ghost cur = csv.subrange(0, i as int + 1);
            proof {
                assert(cur.drop_last() =~= pre);
                assert(cur.last() == csv[i as int]);
                crate::views::lemma_vec_deep_view_index(response_cookies, i as int);
            }
            let _ = self.cookies_manager.add_domain_cookies(response_cookies[i].deep_copy());
            i = i + 1;
        }
        proof {
            assert(csv.subrange(0, response_cookies@.len() as int) =~= csv);
        }
        self.history_data_list.record(sent);
        proof {
            let d = choose|d: HistoryDate|
                self.history_data_list.deep_view() == w0.history.push((d, sent.deep_view()));
            assert(self.history_data_list.deep_view() == w0.history.push(
                history_entry(d, updated.rest),
            ));
        }
    }
}

} // verus!
