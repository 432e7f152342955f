use vstd::prelude::*;

use crate::central::{crdl_wf, CentralRequestDataList, CrdlImage};
use crate::collections::{Collections, FolderImage};
use crate::cookies::{CookieImage, CookiesManager};
use crate::environment::{Environment, EnvironmentImage};
use crate::history::{HistoryDataList, HistoryDate};
use crate::http::RecordImage;
use crate::kv::{
    assoc_find, assoc_get, assoc_index, assoc_upsert, lemma_assoc_index, lemma_assoc_upsert_get,
};
use crate::views::{lemma_vec_deep_view_index, lemma_vec_deep_view_len};

verus! {

broadcast use lemma_vec_deep_view_index, lemma_vec_deep_view_len;

/// Everything a persistence collaborator keeps for one workspace: the five
/// component states as plain values. How they reach a disk is not this
/// crate's concern; a store of these values is the model the round-trip
/// contract holds of.
#[derive(Debug)]
pub struct WorkspaceState {
    pub collections: Collections,
    pub environment: Environment,
    pub cookies: CookiesManager,
    pub history: HistoryDataList,
    pub central: CentralRequestDataList,
}

/// Mathematical image of a [`WorkspaceState`].
#[verifier::ext_equal]
pub struct WorkspaceStateImage {
    pub collections: Seq<FolderImage>,
    pub environment: EnvironmentImage,
    pub cookies: Seq<(Seq<char>, Seq<CookieImage>)>,
    pub history: Seq<(HistoryDate, RecordImage)>,
    pub central: CrdlImage,
}

impl DeepView for WorkspaceState {
    type V = WorkspaceStateImage;

    open spec fn deep_view(&self) -> WorkspaceStateImage {
        WorkspaceStateImage {
            collections: self.collections.deep_view(),
            environment: self.environment.deep_view(),
            cookies: self.cookies.deep_view(),
            history: self.history.deep_view(),
            central: self.central.deep_view(),
        }
    }
}

/// The image of a workspace nothing was ever stored for.
pub open spec fn empty_state_image() -> WorkspaceStateImage {
    WorkspaceStateImage {
        collections: Seq::empty(),
        environment: crate::environment::EnvironmentImage { select: None, data: Seq::empty() },
        cookies: Seq::empty(),
        history: Seq::empty(),
        central: CrdlImage { select: None, order: Seq::empty(), map: Seq::empty() },
    }
}

impl WorkspaceState {
    /// The state of a workspace nothing was ever stored for.
    pub fn empty() -> (r: WorkspaceState)
        ensures
            r.deep_view() == empty_state_image(),
    {
        let r = WorkspaceState {
            collections: Collections::new(),
            environment: Environment::new(),
            cookies: CookiesManager::new(),
            history: HistoryDataList::new(),
            central: CentralRequestDataList::new(),
        };
        assert(r.deep_view() =~= empty_state_image());
        r
    }

    /// An exact copy of all five component states.
    pub fn deep_copy(&self) -> (r: WorkspaceState)
        ensures
            r.deep_view() == self.deep_view(),
    {
        let r = WorkspaceState {
            collections: self.collections.deep_copy(),
            environment: self.environment.deep_copy(),
            cookies: self.cookies.deep_copy(),
            history: self.history.deep_copy(),
            central: self.central.deep_copy(),
        };
        assert(r.deep_view() =~= self.deep_view());
        r
    }
}

/// The in-memory model of the persistence collaborator: one saved state per
/// workspace identifier. Reading a disk format into these values and out
/// again belongs to the surrounding program.
#[derive(Debug, Default)]
pub struct PersistStore {
    pub entries: Vec<(String, WorkspaceState)>,
}

impl DeepView for PersistStore {
    type V = Seq<(Seq<char>, WorkspaceStateImage)>;

    open spec fn deep_view(&self) -> Seq<(Seq<char>, WorkspaceStateImage)> {
        self.entries.deep_view()
    }
}

/// Every state a store holds keeps the tab registry's invariant.
pub open spec fn store_wf(s: Seq<(Seq<char>, WorkspaceStateImage)>) -> bool {
    forall|i: int| 0 <= i < s.len() ==> crdl_wf((#[trigger] s[i]).1.central)
}

impl PersistStore {
    /// An empty store.
    pub fn new() -> (r: PersistStore)
        ensures
            r.deep_view() == Seq::<(Seq<char>, WorkspaceStateImage)>::empty(),
            store_wf(r.deep_view()),
    {
        let r = PersistStore { entries: Vec::new() };
        assert(r.deep_view() =~= Seq::<(Seq<char>, WorkspaceStateImage)>::empty());
        r
    }

    /// Saves a workspace's state under its identifier, replacing what was
    /// there.
    pub fn save(&mut self, workspace: String, state: WorkspaceState)
        requires
            store_wf(old(self).deep_view()),
            crdl_wf(state.deep_view().central),
        ensures
            final(self).deep_view() == assoc_upsert(
                old(self).deep_view(),
                workspace@,
                state.deep_view(),
            ),
            store_wf(final(self).deep_view()),
    {
        let ghost s0 = self.deep_view();
        let ghost kv = (workspace@, state.deep_view());
        match assoc_find(&self.entries, &workspace) {
            Some(j) => {
                self.entries.set(j, (workspace, state));
                proof {
                    assert forall|k: int| 0 <= k < self.entries@.len() implies #[trigger] self
                        .entries
                        .deep_view()[k] == s0.update(j as int, kv)[k] by {
                        lemma_vec_deep_view_index(self.entries, k);
                        lemma_vec_deep_view_index(old(self).entries, k);
                    }
                    assert(self.deep_view() =~= s0.update(j as int, kv));
                    assert(store_wf(self.deep_view())) by {
                        assert forall|i: int| 0 <= i < self.deep_view().len() implies crdl_wf(
                            (#[trigger] self.deep_view()[i]).1.central,
                        ) by {
                            if i != j {
                                assert(self.deep_view()[i] == s0[i]);
                            }
                        }
                    }
                }
            },
            None => {
                self.entries.push((workspace, state));
                proof {
                    assert forall|k: int| 0 <= k < self.entries@.len() implies #[trigger] self
                        .entries
                        .deep_view()[k] == s0.push(kv)[k] by {
                        lemma_vec_deep_view_index(self.entries, k);
                        if k < old(self).entries@.len() {
                            lemma_vec_deep_view_index(old(self).entries, k);
                        }
                    }
                    assert(self.deep_view() =~= s0.push(kv));
                    assert(store_wf(self.deep_view())) by {
                        assert forall|i: int| 0 <= i < self.deep_view().len() implies crdl_wf(
                            (#[trigger] self.deep_view()[i]).1.central,
                        ) by {
                            if i < s0.len() {
                                assert(self.deep_view()[i] == s0[i]);
                            }
                        }
                    }
                }
            },
        }
    }

    /// A point-in-time copy of the state saved under a workspace
    /// identifier.
    pub fn load(&self, workspace: &String) -> (r: Option<WorkspaceState>)
        requires
            store_wf(self.deep_view()),
        ensures
            match r {
                Some(st) => assoc_get(self.deep_view(), workspace@) == Some(st.deep_view())
                    && crdl_wf(st.deep_view().central),
                None => assoc_get(self.deep_view(), workspace@) is None,
            },
    {
        match assoc_find(&self.entries, workspace) {
            None => None,
            Some(j) => {
                proof {
                    lemma_vec_deep_view_index(self.entries, j as int);
                }
                Some(self.entries[j].1.deep_copy())
            },
        }
    }
}


/// The store after one workspace's tab registry alone is saved: an
/// existing entry keeps its other components, a missing one starts empty.
pub open spec fn store_set_central(
    s: Seq<(Seq<char>, WorkspaceStateImage)>,
    w: Seq<char>,
    c: CrdlImage,
) -> Seq<(Seq<char>, WorkspaceStateImage)> {
    match assoc_index(s, w) {
        Some(j) => s.update(j, (w, WorkspaceStateImage { central: c, ..s[j].1 })),
        None => s.push((w, WorkspaceStateImage { central: c, ..empty_state_image() })),
    }
}

/// The store after one workspace's cookie jar alone is saved.
pub open spec fn store_set_cookies(
    s: Seq<(Seq<char>, WorkspaceStateImage)>,
    w: Seq<char>,
    c: Seq<(Seq<char>, Seq<CookieImage>)>,
) -> Seq<(Seq<char>, WorkspaceStateImage)> {
    match assoc_index(s, w) {
        Some(j) => s.update(j, (w, WorkspaceStateImage { cookies: c, ..s[j].1 })),
        None => s.push((w, WorkspaceStateImage { cookies: c, ..empty_state_image() })),
    }
}

impl PersistStore {
    /// Saves one workspace's tab registry, leaving its other saved
    /// components as they were.
    pub fn save_central(&mut self, workspace: String, central: CentralRequestDataList)
        requires
            store_wf(old(self).deep_view()),
            crdl_wf(central.deep_view()),
        ensures
            final(self).deep_view() == store_set_central(
                old(self).deep_view(),
                workspace@,
                central.deep_view(),
            ),
            store_wf(final(self).deep_view()),
    {
        let ghost s0 = self.deep_view();
        let ghost cv = central.deep_view();
        proof {
            lemma_assoc_index(s0, workspace@);
        }
        match assoc_find(&self.entries, &workspace) {
            Some(j) => {
                proof {
                    lemma_vec_deep_view_index(self.entries, j as int);
                }
                let entry = &mut self.entries[j];
                entry.0 = workspace;
                entry.1.central = central;
                proof {
                    assert(entry.1.deep_view() =~= (WorkspaceStateImage {
                        central: cv,
                        ..s0[j as int].1
                    }));
                    assert forall|k: int| 0 <= k < self.entries@.len() implies #[trigger] self
                        .entries
                        .deep_view()[k] == s0.update(
                        j as int,
                        (s0[j as int].0, WorkspaceStateImage { central: cv, ..s0[j as int].1 }),
                    )[k] by {
                        lemma_vec_deep_view_index(self.entries, k);
                        lemma_vec_deep_view_index(old(self).entries, k);
                    }
                    assert(self.deep_view() =~= s0.update(
                        j as int,
                        (s0[j as int].0, WorkspaceStateImage { central: cv, ..s0[j as int].1 }),
                    ));
                    assert(s0[j as int].0 == workspace@);
                    assert(self.deep_view() =~= store_set_central(s0, workspace@, cv));
                    assert(store_wf(self.deep_view())) by {
                        assert forall|i: int| 0 <= i < self.deep_view().len() implies crdl_wf(
                            (#[trigger] self.deep_view()[i]).1.central,
                        ) by {
                            if i != j {
                                assert(self.deep_view()[i] == s0[i]);
                            }
                        }
                    }
                }
            },
            None => {
                let mut st = WorkspaceState::empty();
                st.central = central;
                proof {
                    assert(st.deep_view() =~= (WorkspaceStateImage {
                        central: cv,
                        ..empty_state_image()
                    }));
                }
                let ghost stv = st.deep_view();
                self.entries.push((workspace, st));
                proof {
                    assert forall|k: int| 0 <= k < self.entries@.len() implies #[trigger] self
                        .entries
                        .deep_view()[k] == s0.push((workspace@, stv))[k] by {
                        lemma_vec_deep_view_index(self.entries, k);
                        if k < old(self).entries@.len() {
                            lemma_vec_deep_view_index(old(self).entries, k);
                        }
                    }
                    assert(self.deep_view() =~= s0.push((workspace@, stv)));
                    assert(self.deep_view() =~= store_set_central(s0, workspace@, cv));
                    assert(store_wf(self.deep_view())) by {
                        assert forall|i: int| 0 <= i < self.deep_view().len() implies crdl_wf(
                            (#[trigger] self.deep_view()[i]).1.central,
                        ) by {
                            if i < s0.len() {
                                assert(self.deep_view()[i] == s0[i]);
                            }
                        }
                    }
                }
            },
        }
    }

    /// Saves one workspace's cookie jar, leaving its other saved
    /// components as they were.
    pub fn save_cookies(&mut self, workspace: String, cookies: CookiesManager)
        requires
            store_wf(old(self).deep_view()),
        ensures
            final(self).deep_view() == store_set_cookies(
                old(self).deep_view(),
                workspace@,
                cookies.deep_view(),
            ),
            store_wf(final(self).deep_view()),
    {
        let ghost s0 = self.deep_view();
        let ghost cv = cookies.deep_view();
        proof {
            lemma_assoc_index(s0, workspace@);
        }
        match assoc_find(&self.entries, &workspace) {
            Some(j) => {
                proof {
                    lemma_vec_deep_view_index(self.entries, j as int);
                }
                let entry = &mut self.entries[j];
                entry.0 = workspace;
                entry.1.cookies = cookies;
                proof {
                    assert(entry.1.deep_view() =~= (WorkspaceStateImage {
                        cookies: cv,
                        ..s0[j as int].1
                    }));
                    assert forall|k: int| 0 <= k < self.entries@.len() implies #[trigger] self
                        .entries
                        .deep_view()[k] == s0.update(
                        j as int,
                        (s0[j as int].0, WorkspaceStateImage { cookies: cv, ..s0[j as int].1 }),
                    )[k] by {
                        lemma_vec_deep_view_index(self.entries, k);
                        lemma_vec_deep_view_index(old(self).entries, k);
                    }
                    assert(self.deep_view() =~= s0.update(
                        j as int,
                        (s0[j as int].0, WorkspaceStateImage { cookies: cv, ..s0[j as int].1 }),
                    ));
                    assert(s0[j as int].0 == workspace@);
                    assert(self.deep_view() =~= store_set_cookies(s0, workspace@, cv));
                    assert(store_wf(self.deep_view())) by {
                        assert forall|i: int| 0 <= i < self.deep_view().len() implies crdl_wf(
                            (#[trigger] self.deep_view()[i]).1.central,
                        ) by {
                            if i != j {
                                assert(self.deep_view()[i] == s0[i]);
                            } else {
                                assert(s0[i].1.central == self.deep_view()[i].1.central);
                            }
                        }
                    }
                }
            },
            None => {
                let mut st = WorkspaceState::empty();
                st.cookies = cookies;
                proof {
                    assert(st.deep_view() =~= (WorkspaceStateImage {
                        cookies: cv,
                        ..empty_state_image()
                    }));
                }
                let ghost stv = st.deep_view();
                self.entries.push((workspace, st));
                proof {
                    assert forall|k: int| 0 <= k < self.entries@.len() implies #[trigger] self
                        .entries
                        .deep_view()[k] == s0.push((workspace@, stv))[k] by {
                        lemma_vec_deep_view_index(self.entries, k);
                        if k < old(self).entries@.len() {
                            lemma_vec_deep_view_index(old(self).entries, k);
                        }
                    }
                    assert(self.deep_view() =~= s0.push((workspace@, stv)));
                    assert(self.deep_view() =~= store_set_cookies(s0, workspace@, cv));
                    assert(store_wf(self.deep_view())) by {
                        assert forall|i: int| 0 <= i < self.deep_view().len() implies crdl_wf(
                            (#[trigger] self.deep_view()[i]).1.central,
                        ) by {
                            if i < s0.len() {
                                assert(self.deep_view()[i] == s0[i]);
                            }
                        }
                    }
                }
            },
        }
    }
}

/// The round-trip law of persistence: loading a workspace identifier right
/// after saving a state under it yields exactly that state's image, for
/// every store, identifier and state.
pub proof fn lemma_store_round_trip(
    s: Seq<(Seq<char>, WorkspaceStateImage)>,
    w: Seq<char>,
    st: WorkspaceStateImage,
)
    ensures
        assoc_get(assoc_upsert(s, w, st), w) == Some(st),
{
    lemma_assoc_upsert_get(s, w, st);
}

} // verus!
