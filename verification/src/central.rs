use vstd::prelude::*;

use crate::http::{HttpRecord, Method, RecordImage, Request, Response};
use crate::kv::{assoc_find, assoc_index, lemma_assoc_index};
use crate::views::{lemma_vec_deep_view_index, lemma_vec_deep_view_len};

verus! {

broadcast use lemma_vec_deep_view_index, lemma_vec_deep_view_len;

/// The outcome of one scripted assertion.
#[derive(Clone, Debug)]
pub struct TestAssertResult {
    pub assert_result: bool,
    pub msg: String,
}

/// Mathematical image of a [`TestAssertResult`].
#[verifier::ext_equal]
pub struct TestAssertImage {
    pub assert_result: bool,
    pub msg: Seq<char>,
}

impl DeepView for TestAssertResult {
    type V = TestAssertImage;

    open spec fn deep_view(&self) -> TestAssertImage {
        TestAssertImage { assert_result: self.assert_result, msg: self.msg.deep_view() }
    }
}

/// How far one named test has come.
#[derive(Clone, Copy, Debug, PartialEq, Eq, Structural)]
pub enum TestStatus {
    Waiting,
    Passed,
    Failed,
}

impl DeepView for TestStatus {
    type V = TestStatus;

    open spec fn deep_view(&self) -> TestStatus {
        *self
    }
}

impl TestStatus {
    /// The label shown for this status.
    pub fn text(&self) -> (r: String)
        ensures
            *self == TestStatus::Waiting ==> r@ == "WAITING"@,
            *self == TestStatus::Passed ==> r@ == "PASSED"@,
            *self == TestStatus::Failed ==> r@ == "FAILED"@,
    {
        match self {
            TestStatus::Waiting => String::from_str("WAITING"),
            TestStatus::Passed => String::from_str("PASSED"),
            TestStatus::Failed => String::from_str("FAILED"),
        }
    }
}

/// One named test with its assertion outcomes.
#[derive(Clone, Debug)]
pub struct TestInfo {
    pub name: String,
    pub status: TestStatus,
    pub results: Vec<TestAssertResult>,
}

/// Mathematical image of a [`TestInfo`].
#[verifier::ext_equal]
pub struct TestInfoImage {
    pub name: Seq<char>,
    pub status: TestStatus,
    pub results: Seq<TestAssertImage>,
}

impl DeepView for TestInfo {
    type V = TestInfoImage;

    open spec fn deep_view(&self) -> TestInfoImage {
        TestInfoImage {
            name: self.name.deep_view(),
            status: self.status,
            results: self.results.deep_view(),
        }
    }
}

/// What the script evaluator reported for a tab's last send.
#[derive(Clone, Debug, Default)]
pub struct TestResult {
    pub test_info_list: Vec<TestInfo>,
}

impl DeepView for TestResult {
    type V = Seq<TestInfoImage>;

    open spec fn deep_view(&self) -> Seq<TestInfoImage> {
        self.test_info_list.deep_view()
    }
}

/// One open tab: a working copy of a request, the baseline snapshot taken
/// at its last save, where it is saved (nothing for a scratch tab), and its
/// latest test outcome. Dirty means the working copy differs from the
/// baseline.
#[derive(Clone, Debug)]
pub struct CentralRequestItem {
    pub id: String,
    pub collection_path: Option<String>,
    pub rest: HttpRecord,
    pub baseline: HttpRecord,
    pub test_result: TestResult,
}

/// Mathematical image of a [`CentralRequestItem`].
#[verifier::ext_equal]
pub struct CrtImage {
    pub id: Seq<char>,
    pub collection_path: Option<Seq<char>>,
    pub rest: RecordImage,
    pub baseline: RecordImage,
    pub test_result: Seq<TestInfoImage>,
}

impl DeepView for CentralRequestItem {
    type V = CrtImage;

    open spec fn deep_view(&self) -> CrtImage {
        CrtImage {
            id: self.id.deep_view(),
            collection_path: self.collection_path.deep_view(),
            rest: self.rest.deep_view(),
            baseline: self.baseline.deep_view(),
            test_result: self.test_result.deep_view(),
        }
    }
}

/// Whether a tab has edits its baseline has not seen.
pub open spec fn crt_dirty(c: CrtImage) -> bool {
    c.rest != c.baseline
}

/// Copies a test table row by row.
fn clone_test_result(t: &TestResult) -> (r: TestResult)
    ensures
        r.deep_view() == t.deep_view(),
{
    let mut rows: Vec<TestInfo> = Vec::new();
    let mut i: usize = 0;
    while i < t.test_info_list.len()
        invariant
            i <= t.test_info_list@.len(),
            rows@.len() == i,
            forall|k: int| 0 <= k < i ==> #[trigger] rows.deep_view()[k]
                == t.test_info_list.deep_view()[k],
        decreases t.test_info_list@.len() - i,
    {
        let src = &t.test_info_list[i];
        let mut results: Vec<TestAssertResult> = Vec::new();
        let mut p: usize = 0;
        while p < src.results.len()
            invariant
                p <= src.results@.len(),
                results@.len() == p,
                forall|k: int| 0 <= k < p ==> #[trigger] results.deep_view()[k]
                    == src.results.deep_view()[k],
            decreases src.results@.len() - p,
        {
            let row = TestAssertResult {
                assert_result: src.results[p].assert_result,
                msg: src.results[p].msg.clone(),
            };
            let ghost rs0 = results;
            results.push(row);
            proof {
                assert forall|k: int| 0 <= k < p + 1 implies #[trigger] results.deep_view()[k]
                    == src.results.deep_view()[k] by {
                    lemma_vec_deep_view_index(results, k);
                    lemma_vec_deep_view_index(src.results, k);
                    if k < p {
                        lemma_vec_deep_view_index(rs0, k);
                    }
                }
            }
            p = p + 1;
        }
        proof {
            assert(results.deep_view() =~= src.results.deep_view());
        }
        let info = TestInfo { name: src.name.clone(), status: src.status, results };
        let ghost rows0 = rows;
        rows.push(info);
        proof {
            assert forall|k: int| 0 <= k < i + 1 implies #[trigger] rows.deep_view()[k]
                == t.test_info_list.deep_view()[k] by {
                lemma_vec_deep_view_index(rows, k);
                lemma_vec_deep_view_index(t.test_info_list, k);
                if k < i {
                    lemma_vec_deep_view_index(rows0, k);
                }
            }
        }
        i = i + 1;
    }
    proof {
        assert(rows.deep_view() =~= t.deep_view());
    }
    TestResult { test_info_list: rows }
}

impl CentralRequestItem {
    /// An exact copy, made field by field.
    pub fn deep_copy(&self) -> (r: CentralRequestItem)
        ensures
            r.deep_view() == self.deep_view(),
    {
        let collection_path = match &self.collection_path {
            None => None,
            Some(p) => Some(p.clone()),
        };
        let r = CentralRequestItem {
            id: self.id.clone(),
            collection_path,
            rest: self.rest.deep_copy(),
            baseline: self.baseline.deep_copy(),
            test_result: clone_test_result(&self.test_result),
        };
        assert(r.deep_view() =~= self.deep_view());
        r
    }

    /// Whether this tab's working copy differs from its baseline.
    pub fn is_modify(&self) -> (r: bool)
        ensures
            r == crt_dirty(self.deep_view()),
    {
        !self.rest.same_as(&self.baseline)
    }

    /// Takes the current working copy as the new baseline, marking the tab
    /// clean.
    pub fn set_baseline(&mut self)
        ensures
            final(self).deep_view() == (CrtImage {
                baseline: old(self).deep_view().rest,
                ..old(self).deep_view()
            }),
    {
        self.baseline = self.rest.deep_copy();
        assert(self.deep_view() =~= (CrtImage {
            baseline: old(self).deep_view().rest,
            ..old(self).deep_view()
        }));
    }
}

/// The empty scratch tab a fresh id is wrapped around.
pub open spec fn scratch_crt(id: Seq<char>, rec: RecordImage) -> CrtImage {
    CrtImage {
        id: id,
        collection_path: None,
        rest: rec,
        baseline: rec,
        test_result: Seq::empty(),
    }
}

/// Relies on uuid's `Uuid::new_v4` and its `Display` form: a random
/// version-4 identifier, written as 36 hyphenated hex characters.
#[verifier::external_body]
fn fresh_tab_id() -> (r: String)
    ensures
        r@.len() == 36,
{
    uuid::Uuid::new_v4().to_string()
}


/// The registry of open tabs: the tab order, the id-keyed tab store, and
/// the selected tab.
#[derive(Clone, Debug, Default)]
pub struct CentralRequestDataList {
    pub select_id: Option<String>,
    pub data_list: Vec<String>,
    pub data_map: Vec<(String, CentralRequestItem)>,
}

/// Mathematical image of a [`CentralRequestDataList`].
#[verifier::ext_equal]
pub struct CrdlImage {
    pub select: Option<Seq<char>>,
    pub order: Seq<Seq<char>>,
    pub map: Seq<(Seq<char>, CrtImage)>,
}

impl DeepView for CentralRequestDataList {
    type V = CrdlImage;

    open spec fn deep_view(&self) -> CrdlImage {
        CrdlImage {
            select: self.select_id.deep_view(),
            order: self.data_list.deep_view(),
            map: self.data_map.deep_view(),
        }
    }
}

/// The registry's invariant: order and store list the same ids in the same
/// order, each tab carries its key as its id, ids never repeat, and a
/// selected id is an open tab's.
pub open spec fn crdl_wf(s: CrdlImage) -> bool {
    &&& s.map.len() == s.order.len()
    &&& forall|i: int| 0 <= i < s.map.len() ==> (#[trigger] s.map[i]).0 == s.order[i]
        && s.map[i].1.id == s.order[i]
    &&& forall|i: int, j: int| 0 <= i < j < s.order.len() ==> s.order[i] != s.order[j]
    &&& match s.select {
        None => true,
        Some(sid) => exists|i: int| 0 <= i < s.order.len() && s.order[i] == sid,
    }
}

/// The registry after a tab is added: a tab under a known id is replaced in
/// place, a new id is appended to the order.
pub open spec fn crdl_add(s: CrdlImage, c: CrtImage) -> CrdlImage {
    match assoc_index(s.map, c.id) {
        Some(j) => CrdlImage { map: s.map.update(j, (c.id, c)), ..s },
        None => CrdlImage { order: s.order.push(c.id), map: s.map.push((c.id, c)), ..s },
    }
}

/// The registry after a tab is closed: its id leaves order and store, and a
/// selection pointing at it is cleared, never reassigned.
pub open spec fn crdl_remove(s: CrdlImage, id: Seq<char>) -> CrdlImage {
    match assoc_index(s.map, id) {
        None => s,
        Some(j) => CrdlImage {
            select: if s.select == Some(id) {
                None
            } else {
                s.select
            },
            order: s.order.remove(j),
            map: s.map.remove(j),
        },
    }
}

/// A copy of a tab under a new id, detached from any collection; what
/// duplicating a tab yields.
pub open spec fn dup_of(c: CrtImage, idv: Seq<char>) -> CrtImage {
    CrtImage { id: idv, collection_path: None, ..c }
}

/// Whether `s1` is `s0` with the tab under `id` duplicated: unknown ids
/// change nothing, a known tab reappears as a scratch copy under some
/// fresh id.
pub open spec fn crdl_duplicated(s0: CrdlImage, id: Seq<char>, s1: CrdlImage) -> bool {
    match assoc_index(s0.map, id) {
        None => s1 == s0,
        Some(j) => exists|idv: Seq<char>| s1 == crdl_add(s0, #[trigger] dup_of(s0.map[j].1, idv)),
    }
}

/// The registry after the tab under `id` is replaced in place: the stored
/// item changes, the id, the order and the selection stay.
pub open spec fn crdl_replace(s: CrdlImage, id: Seq<char>, item: CrtImage) -> CrdlImage {
    match assoc_index(s.map, id) {
        None => s,
        Some(j) => CrdlImage {
            map: s.map.update(j, (s.map[j].0, CrtImage { id: s.map[j].0, ..item })),
            ..s
        },
    }
}

/// The registry after a tab's identity moves from `old_id` to `new_id`:
/// order, store key, the tab's own id and a selection pointing at it all
/// follow. Nothing changes when the old id is unknown, the new id is
/// already taken, or the two are equal.
pub open spec fn crdl_remap(s: CrdlImage, old_id: Seq<char>, new_id: Seq<char>) -> CrdlImage {
    if old_id == new_id {
        s
    } else {
        match assoc_index(s.map, old_id) {
            None => s,
            Some(j) => {
                if assoc_index(s.map, new_id) is Some {
                    s
                } else {
                    CrdlImage {
                        select: if s.select == Some(old_id) {
                            Some(new_id)
                        } else {
                            s.select
                        },
                        order: s.order.update(j, new_id),
                        map: s.map.update(j, (new_id, CrtImage { id: new_id, ..s.map[j].1 })),
                    }
                }
            },
        }
    }
}

/// The registry after a tab is saved into a collection folder: the saved
/// record becomes both working copy and baseline, the tab binds to the
/// folder path, and its identity moves to the path-derived id.
pub open spec fn crdl_save(
    s: CrdlImage,
    id: Seq<char>,
    path: Seq<char>,
    rec: RecordImage,
) -> CrdlImage {
    match assoc_index(s.map, id) {
        None => s,
        Some(j) => {
            let c0 = s.map[j].1;
            let c1 = CrtImage {
                id: c0.id,
                collection_path: Some(path),
                rest: rec,
                baseline: rec,
                test_result: c0.test_result,
            };
            let s1 = CrdlImage { map: s.map.update(j, (c0.id, c1)), ..s };
            crdl_remap(s1, id, crate::path::joined_path(path, rec.name))
        },
    }
}

/// One store entry after a rename at `path` from `old_name` to `new_name`:
/// a tab bound to that path whose working copy carries the old name tracks
/// the new name in both working copy and baseline.
pub open spec fn rename_entry(
    e: (Seq<char>, CrtImage),
    path: Seq<char>,
    old_name: Seq<char>,
    new_name: Seq<char>,
) -> (Seq<char>, CrtImage) {
    if e.1.collection_path == Some(path) && e.1.rest.name == old_name {
        (
            e.0,
            CrtImage {
                rest: RecordImage { name: new_name, ..e.1.rest },
                baseline: RecordImage { name: new_name, ..e.1.baseline },
                ..e.1
            },
        )
    } else {
        e
    }
}

/// The registry after a saved request is renamed: every tab bound to the
/// renamed entity tracks the new name, and the tab whose identity was the
/// old path-derived id moves to the new one.
pub open spec fn crdl_rename(
    s: CrdlImage,
    path: Seq<char>,
    old_name: Seq<char>,
    new_name: Seq<char>,
) -> CrdlImage {
    let renamed = CrdlImage {
        map: Seq::new(s.map.len(), |i: int| rename_entry(s.map[i], path, old_name, new_name)),
        ..s
    };
    crdl_remap(
        renamed,
        crate::path::joined_path(path, old_name),
        crate::path::joined_path(path, new_name),
    )
}


/// The record a fresh scratch tab opens with.
pub open spec fn default_record_image() -> RecordImage {
    RecordImage {
        name: Seq::empty(),
        desc: Seq::empty(),
        pre_request_script: Seq::empty(),
        test_script: Seq::empty(),
        request: crate::http::RequestImage {
            method: Method::Get,
            base_url: Seq::empty(),
            params: Seq::empty(),
            headers: Seq::empty(),
            body: Seq::empty(),
            auth: crate::auth::AuthImage::no_auth(),
        },
        response: crate::http::ResponseImage::empty(),
    }
}

/// Builds the record a fresh scratch tab opens with.
pub fn default_record() -> (r: HttpRecord)
    ensures
        r.deep_view() == default_record_image(),
{
    let r = HttpRecord {
        name: String::new(),
        desc: String::new(),
        pre_request_script: String::new(),
        test_script: String::new(),
        request: Request {
            method: Method::Get,
            base_url: String::new(),
            params: Vec::new(),
            headers: Vec::new(),
            body: Vec::new(),
            auth: crate::auth::Auth::no_auth(),
        },
        response: Response::empty(),
    };
    assert(r.deep_view() =~= default_record_image());
    r
}

impl CentralRequestDataList {
    /// An empty registry with nothing selected.
    pub fn new() -> (r: CentralRequestDataList)
        ensures
            r.deep_view() == (CrdlImage { select: None, order: Seq::empty(), map: Seq::empty() }),
            crdl_wf(r.deep_view()),
    {
        let r = CentralRequestDataList {
            select_id: None,
            data_list: Vec::new(),
            data_map: Vec::new(),
        };
        assert(r.deep_view() =~= (CrdlImage {
            select: None,
            order: Seq::empty(),
            map: Seq::empty(),
        }));
        r
    }

    /// An exact copy of the whole registry.
    pub fn deep_copy(&self) -> (r: CentralRequestDataList)
        ensures
            r.deep_view() == self.deep_view(),
    {
        let select_id = match &self.select_id {
            None => None,
            Some(s) => Some(s.clone()),
        };
        let data_list = crate::views::strings_copy(&self.data_list);
        let mut data_map: Vec<(String, CentralRequestItem)> = Vec::new();
        let mut i: usize = 0;
        while i < self.data_map.len()
            invariant
                i <= self.data_map@.len(),
                data_map@.len() == i,
                forall|k: int| 0 <= k < i ==> #[trigger] data_map.deep_view()[k]
                    == self.data_map.deep_view()[k],
            decreases self.data_map@.len() - i,
        {
            let key = self.data_map[i].0.clone();
            let item = self.data_map[i].1.deep_copy();
            let ghost m0 = data_map;
            data_map.push((key, item));
            proof {
                assert forall|k: int| 0 <= k < i + 1 implies #[trigger] data_map.deep_view()[k]
                    == self.data_map.deep_view()[k] by {
                    lemma_vec_deep_view_index(data_map, k);
                    lemma_vec_deep_view_index(self.data_map, k);
                    if k < i {
                        lemma_vec_deep_view_index(m0, k);
                    }
                }
            }
            i = i + 1;
        }
        let r = CentralRequestDataList { select_id, data_list, data_map };
        proof {
            assert(r.deep_view() =~= self.deep_view());
        }
        r
    }

    /// The selected tab's id, if one is selected.
    pub fn get_select(&self) -> (r: Option<String>)
        ensures
            r.deep_view() == self.deep_view().select,
    {
        match &self.select_id {
            None => None,
            Some(s) => Some(s.clone()),
        }
    }

    /// Selects an open tab by id, or clears the selection.
    pub fn set_select(&mut self, select_id: Option<String>)
        requires
            crdl_wf(old(self).deep_view()),
            match select_id {
                None => true,
                Some(sid) => assoc_index(old(self).deep_view().map, sid@) is Some,
            },
        ensures
            final(self).deep_view() == (CrdlImage {
                select: select_id.deep_view(),
                ..old(self).deep_view()
            }),
            crdl_wf(final(self).deep_view()),
    {
        let ghost s0 = self.deep_view();
        proof {
            if select_id is Some {
                let sidv = select_id->0@;
                lemma_assoc_index(s0.map, sidv);
                match assoc_index(s0.map, sidv) {
                    None => {},
                    Some(j) => {
                        assert(s0.map[j].0 == sidv);
                        assert(s0.order[j] == sidv);
                    },
                }
            }
        }
        self.select_id = select_id;
        proof {
            assert(self.deep_view() =~= (CrdlImage { select: self.select_id.deep_view(), ..s0 }));
            assert(crdl_wf(self.deep_view())) by {
                let s1 = self.deep_view();
                match s1.select {
                    None => {},
                    Some(sid) => {
                        match assoc_index(s0.map, sid) {
                            None => {},
                            Some(j) => {
                                assert(s1.order[j] == sid);
                            },
                        }
                    },
                }
            }
        }
    }

    /// The open tabs' ids in tab order.
    pub fn get_id_list(&self) -> (r: Vec<String>)
        ensures
            r.deep_view() == self.deep_view().order,
    {
        crate::views::strings_copy(&self.data_list)
    }

    /// Replaces the tab open under `id` with `item`, which keeps that id;
    /// an unknown id is a no-op.
    pub fn replace_crt(&mut self, id: String, item: CentralRequestItem)
        requires
            crdl_wf(old(self).deep_view()),
        ensures
            final(self).deep_view() == crdl_replace(old(self).deep_view(), id@, item.deep_view()),
            crdl_wf(final(self).deep_view()),
    {
        let ghost s0 = self.deep_view();
        let ghost iv = item.deep_view();
        proof {
            lemma_assoc_index(s0.map, id@);
        }
        match assoc_find(&self.data_map, &id) {
            None => {},
            Some(j) => {
                let mut item = item;
                item.id = id.clone();
                self.data_map.set(j, (id, item));
                proof {
                    assert forall|k: int| 0 <= k < self.data_map@.len() implies #[trigger] self
                        .data_map
                        .deep_view()[k] == s0.map.update(
                        j as int,
                        (s0.map[j as int].0, CrtImage { id: s0.map[j as int].0, ..iv }),
                    )[k] by {
                        lemma_vec_deep_view_index(self.data_map, k);
                        lemma_vec_deep_view_index(old(self).data_map, k);
                    }
                    assert(self.data_map.deep_view() =~= s0.map.update(
                        j as int,
                        (s0.map[j as int].0, CrtImage { id: s0.map[j as int].0, ..iv }),
                    ));
                    assert(self.deep_view() =~= crdl_replace(s0, id@, iv));
                    assert(crdl_wf(self.deep_view())) by {
                        let s1 = self.deep_view();
                        assert(s1.order == s0.order);
                        assert forall|i: int| 0 <= i < s1.map.len() implies (#[trigger] s1
                            .map[i]).0 == s1.order[i] && s1.map[i].1.id == s1.order[i] by {
                            if i != j {
                                assert(s1.map[i] == s0.map[i]);
                            }
                        }
                    }
                }
            },
        }
    }

    /// Duplicates the tab under `id` into a fresh scratch tab under a newly
    /// generated id; an unknown id is a no-op.
    pub fn duplicate(&mut self, id: String)
        requires
            crdl_wf(old(self).deep_view()),
        ensures
            crdl_duplicated(old(self).deep_view(), id@, final(self).deep_view()),
            crdl_wf(final(self).deep_view()),
    {
        let ghost s0 = self.deep_view();
        match assoc_find(&self.data_map, &id) {
            None => {},
            Some(j) => {
                proof {
                    lemma_vec_deep_view_index(self.data_map, j as int);
                }
                let mut dup = self.data_map[j].1.deep_copy();
                dup.id = fresh_tab_id();
                dup.collection_path = None;
                let ghost idv = dup.id@;
                proof {
                    assert(dup.deep_view() =~= dup_of(s0.map[j as int].1, idv));
                }
                self.add_crt(dup);
                proof {
                    assert(self.deep_view() == crdl_add(s0, dup_of(s0.map[j as int].1, idv)));
                    assert(crdl_duplicated(s0, id@, self.deep_view()));
                }
            },
        }
    }

    /// Whether a tab is open under this id.
    pub fn contains_id(&self, id: &String) -> (r: bool)
        ensures
            r == (assoc_index(self.deep_view().map, id@) is Some),
    {
        assoc_find(&self.data_map, id).is_some()
    }

    /// Opens a tab, or replaces the tab already open under the same id.
    pub fn add_crt(&mut self, crt: CentralRequestItem)
        requires
            crdl_wf(old(self).deep_view()),
        ensures
            final(self).deep_view() == crdl_add(old(self).deep_view(), crt.deep_view()),
            crdl_wf(final(self).deep_view()),
    {
        let ghost s0 = self.deep_view();
        let ghost cv = crt.deep_view();
        proof {
            lemma_assoc_index(s0.map, cv.id);
        }
        match assoc_find(&self.data_map, &crt.id) {
            Some(j) => {
                let id = crt.id.clone();
                self.data_map.set(j, (id, crt));
                proof {
                    assert forall|k: int| 0 <= k < self.data_map@.len() implies #[trigger] self
                        .data_map
                        .deep_view()[k] == s0.map.update(j as int, (cv.id, cv))[k] by {
                        lemma_vec_deep_view_index(self.data_map, k);
                        lemma_vec_deep_view_index(old(self).data_map, k);
                    }
                    assert(self.data_map.deep_view() =~= s0.map.update(j as int, (cv.id, cv)));
                    assert(self.deep_view() =~= crdl_add(s0, cv));
                    assert(crdl_wf(self.deep_view())) by {
                        let s1 = self.deep_view();
                        assert(s1.order == s0.order);
                        assert(s0.map[j as int].0 == cv.id);
                        assert forall|i: int| 0 <= i < s1.map.len() implies (#[trigger] s1.map[i]).0
                            == s1.order[i] && s1.map[i].1.id == s1.order[i] by {
                            if i != j {
                                assert(s1.map[i] == s0.map[i]);
                            }
                        }
                    }
                }
            },
            None => {
                let id = crt.id.clone();
                self.data_list.push(id.clone());
                self.data_map.push((id, crt));
                proof {
                    assert forall|k: int| 0 <= k < self.data_map@.len() implies #[trigger] self
                        .data_map
                        .deep_view()[k] == s0.map.push((cv.id, cv))[k] by {
                        lemma_vec_deep_view_index(self.data_map, k);
                        if k < old(self).data_map@.len() {
                            lemma_vec_deep_view_index(old(self).data_map, k);
                        }
                    }
                    assert(self.data_map.deep_view() =~= s0.map.push((cv.id, cv)));
                    assert forall|k: int| 0 <= k < self.data_list@.len() implies #[trigger] self
                        .data_list
                        .deep_view()[k] == s0.order.push(cv.id)[k] by {
                        lemma_vec_deep_view_index(self.data_list, k);
                        if k < old(self).data_list@.len() {
                            lemma_vec_deep_view_index(old(self).data_list, k);
                        }
                    }
                    assert(self.data_list.deep_view() =~= s0.order.push(cv.id));
                    assert(self.deep_view() =~= crdl_add(s0, cv));
                    assert(crdl_wf(self.deep_view())) by {
                        let s1 = self.deep_view();
                        assert forall|i: int, j2: int|
                            0 <= i < j2 < s1.order.len() implies s1.order[i] != s1.order[j2] by {
                            if j2 == s1.order.len() - 1 {
                                assert(s0.map[i].0 == s0.order[i]);
                            }
                        }
                        match s1.select {
                            None => {},
                            Some(sid) => {
                                let w = choose|i: int|
                                    0 <= i < s0.order.len() && s0.order[i] == sid;
                                assert(s1.order[w] == sid);
                            },
                        }
                    }
                }
            },
        }
    }

    /// Opens a fresh scratch tab under the given id, or replaces the tab
    /// already open under it.
    pub fn add_new_with_id(&mut self, id: String)
        requires
            crdl_wf(old(self).deep_view()),
        ensures
            final(self).deep_view() == crdl_add(
                old(self).deep_view(),
                scratch_crt(id@, default_record_image()),
            ),
            crdl_wf(final(self).deep_view()),
    {
        let rec = default_record();
        let baseline = rec.deep_copy();
        let crt = CentralRequestItem {
            id,
            collection_path: None,
            rest: rec,
            baseline,
            test_result: TestResult { test_info_list: Vec::new() },
        };
        proof {
            assert(crt.deep_view() =~= scratch_crt(crt.id@, default_record_image()));
        }
        self.add_crt(crt);
    }

    /// Opens a fresh scratch tab under a newly generated id.
    pub fn add_new(&mut self)
        requires
            crdl_wf(old(self).deep_view()),
        ensures
            exists|idv: Seq<char>|
                final(self).deep_view() == crdl_add(
                    old(self).deep_view(),
                    scratch_crt(idv, default_record_image()),
                ),
            crdl_wf(final(self).deep_view()),
    {
        let id = fresh_tab_id();
        let ghost idv = id@;
        self.add_new_with_id(id);
        proof {
            assert(final(self).deep_view() == crdl_add(
                old(self).deep_view(),
                scratch_crt(idv, default_record_image()),
            ));
        }
    }

    /// Closes the tab under this id; a selection pointing at it is
    /// cleared. Unknown ids are a no-op.
    pub fn remove(&mut self, id: String)
        requires
            crdl_wf(old(self).deep_view()),
        ensures
            final(self).deep_view() == crdl_remove(old(self).deep_view(), id@),
            crdl_wf(final(self).deep_view()),
    {
        let ghost s0 = self.deep_view();
        proof {
            lemma_assoc_index(s0.map, id@);
        }
        match assoc_find(&self.data_map, &id) {
            None => {},
            Some(j) => {
                let clear = match &self.select_id {
                    None => false,
                    Some(sid) => *sid == id,
                };
                if clear {
                    self.select_id = None;
                }
                self.data_list.remove(j);
                self.data_map.remove(j);
                proof {
                    assert forall|k: int| 0 <= k < self.data_map@.len() implies #[trigger] self
                        .data_map
                        .deep_view()[k] == s0.map.remove(j as int)[k] by {
                        lemma_vec_deep_view_index(self.data_map, k);
                        lemma_vec_deep_view_index(old(self).data_map, k);
                        if k >= j {
                            lemma_vec_deep_view_index(old(self).data_map, k + 1);
                        }
                    }
                    assert(self.data_map.deep_view() =~= s0.map.remove(j as int));
                    assert forall|k: int| 0 <= k < self.data_list@.len() implies #[trigger] self
                        .data_list
                        .deep_view()[k] == s0.order.remove(j as int)[k] by {
                        lemma_vec_deep_view_index(self.data_list, k);
                        lemma_vec_deep_view_index(old(self).data_list, k);
                        if k >= j {
                            lemma_vec_deep_view_index(old(self).data_list, k + 1);
                        }
                    }
                    assert(self.data_list.deep_view() =~= s0.order.remove(j as int));
                    assert(s0.order[j as int] == id@);
                    assert(self.deep_view() =~= crdl_remove(s0, id@));
                    assert(crdl_wf(self.deep_view())) by {
                        let s1 = self.deep_view();
                        match s1.select {
                            None => {},
                            Some(sid) => {
                                assert(sid != id@);
                                let w = choose|i: int|
                                    0 <= i < s0.order.len() && s0.order[i] == sid;
                                if w < j {
                                    assert(s1.order[w] == sid);
                                } else {
                                    assert(s1.order[w - 1] == sid);
                                }
                            },
                        }
                    }
                }
            },
        }
    }

    /// Closes every tab and clears the selection.
    pub fn clear(&mut self)
        ensures
            final(self).deep_view() == (CrdlImage {
                select: None,
                order: Seq::empty(),
                map: Seq::empty(),
            }),
            crdl_wf(final(self).deep_view()),
    {
        self.select_id = None;
        self.data_list.clear();
        self.data_map.clear();
        proof {
            assert(self.deep_view() =~= (CrdlImage {
                select: None,
                order: Seq::empty(),
                map: Seq::empty(),
            }));
        }
    }

    /// A point-in-time copy of the tab under this id.
    pub fn get_crt_cloned(&self, id: &String) -> (r: Option<CentralRequestItem>)
        ensures
            match r {
                Some(c) => crate::kv::assoc_get(self.deep_view().map, id@) == Some(c.deep_view()),
                None => crate::kv::assoc_get(self.deep_view().map, id@) is None,
            },
    {
        match assoc_find(&self.data_map, id) {
            None => None,
            Some(j) => {
                proof {
                    lemma_vec_deep_view_index(self.data_map, j as int);
                }
                Some(self.data_map[j].1.deep_copy())
            },
        }
    }

    /// Moves a tab's identity from `old_id` to `new_id`, keeping order
    /// position, selection and the tab's contents; see [`crdl_remap`] for
    /// the cases that change nothing.
    pub fn update_old_id_to_new(&mut self, old_id: String, new_id: String)
        requires
            crdl_wf(old(self).deep_view()),
        ensures
            final(self).deep_view() == crdl_remap(old(self).deep_view(), old_id@, new_id@),
            crdl_wf(final(self).deep_view()),
    {
        let ghost s0 = self.deep_view();
        if old_id == new_id {
            return;
        }
        proof {
            lemma_assoc_index(s0.map, old_id@);
            lemma_assoc_index(s0.map, new_id@);
        }
        let j = match assoc_find(&self.data_map, &old_id) {
            None => {
                return;
            },
            Some(j) => j,
        };
        if assoc_find(&self.data_map, &new_id).is_some() {
            return;
        }
        let clear = match &self.select_id {
            None => false,
            Some(sid) => *sid == old_id,
        };
        if clear {
            self.select_id = Some(new_id.clone());
        }
        self.data_list.set(j, new_id.clone());
        proof {
            lemma_vec_deep_view_index(old(self).data_map, j as int);
        }
        let entry = &mut self.data_map[j];
        entry.0 = new_id.clone();
        entry.1.id = new_id;
        proof {
            let s1 = self.deep_view();
            assert forall|k: int| 0 <= k < self.data_map@.len() implies #[trigger] self
                .data_map
                .deep_view()[k] == s0.map.update(
                j as int,
                (s1.order[j as int], CrtImage { id: s1.order[j as int], ..s0.map[j as int].1 }),
            )[k] by {
                lemma_vec_deep_view_index(self.data_map, k);
                lemma_vec_deep_view_index(old(self).data_map, k);
            }
            assert forall|k: int| 0 <= k < self.data_list@.len() implies #[trigger] self
                .data_list
                .deep_view()[k] == s0.order.update(j as int, s1.order[j as int])[k] by {
                lemma_vec_deep_view_index(self.data_list, k);
                lemma_vec_deep_view_index(old(self).data_list, k);
            }
            assert(s1.order[j as int] == new_id@);
            assert(self.data_list.deep_view() =~= s0.order.update(j as int, new_id@));
            assert(self.data_map.deep_view() =~= s0.map.update(
                j as int,
                (new_id@, CrtImage { id: new_id@, ..s0.map[j as int].1 }),
            ));
            assert(self.deep_view() =~= crdl_remap(s0, old_id@, new_id@));
            assert(crdl_wf(self.deep_view())) by {
                let sf = self.deep_view();
                assert forall|a: int, b: int| 0 <= a < b < sf.order.len() implies sf.order[a]
                    != sf.order[b] by {
                    if a != j && b != j {
                        assert(s0.order[a] != s0.order[b]);
                    } else if a == j {
                        assert(s0.map[b].0 == s0.order[b]);
                    } else {
                        assert(s0.map[a].0 == s0.order[a]);
                    }
                }
                match sf.select {
                    None => {},
                    Some(sid) => {
                        if s0.select == Some(old_id@) {
                            assert(sf.order[j as int] == sid);
                        } else {
                            let w = choose|i: int|
                                0 <= i < s0.order.len() && s0.order[i] == sid;
                            if w == j {
                                assert(s0.order[j as int] == old_id@);
                            } else {
                                assert(sf.order[w] == sid);
                            }
                        }
                    },
                }
            }
        }
    }
}


impl CentralRequestDataList {
    /// Binds the tab under `id` to the folder at `path` with `record` as
    /// both its working copy and its baseline, and moves its identity to
    /// the path-derived id; an unknown id is a no-op.
    pub fn save_tab(&mut self, id: String, path: String, record: HttpRecord)
        requires
            crdl_wf(old(self).deep_view()),
        ensures
            final(self).deep_view() == crdl_save(
                old(self).deep_view(),
                id@,
                path@,
                record.deep_view(),
            ),
            crdl_wf(final(self).deep_view()),
    {
        let ghost s0 = self.deep_view();
        let ghost rv = record.deep_view();
        proof {
            lemma_assoc_index(s0.map, id@);
        }
        let j = match assoc_find(&self.data_map, &id) {
            None => {
                return;
            },
            Some(j) => j,
        };
        let new_id = crate::path::join_path(path.as_str(), record.name.as_str());
        proof {
            lemma_vec_deep_view_index(self.data_map, j as int);
        }
        let baseline = record.deep_copy();
        let entry = &mut self.data_map[j];
        entry.1.collection_path = Some(path);
        entry.1.rest = record;
        entry.1.baseline = baseline;
        proof {
            let ghost c0 = s0.map[j as int].1;
            let ghost c1 = CrtImage {
                id: c0.id,
                collection_path: Some(path@),
                rest: rv,
                baseline: rv,
                test_result: c0.test_result,
            };
            assert(entry.1.deep_view() =~= c1);
            assert forall|k: int| 0 <= k < self.data_map@.len() implies #[trigger] self
                .data_map
                .deep_view()[k] == s0.map.update(j as int, (s0.map[j as int].0, c1))[k] by {
                lemma_vec_deep_view_index(self.data_map, k);
                lemma_vec_deep_view_index(old(self).data_map, k);
            }
            assert(self.data_map.deep_view() =~= s0.map.update(
                j as int,
                (s0.map[j as int].0, c1),
            ));
            assert(s0.map[j as int].0 == id@);
            assert(self.deep_view() =~= (CrdlImage {
                map: s0.map.update(j as int, (c0.id, c1)),
                ..s0
            }));
            assert(crdl_wf(self.deep_view())) by {
                let s1 = self.deep_view();
                assert(s1.order == s0.order);
                assert(c0.id == s0.order[j as int]);
                assert forall|i: int| 0 <= i < s1.map.len() implies (#[trigger] s1.map[i]).0
                    == s1.order[i] && s1.map[i].1.id == s1.order[i] by {
                    if i != j {
                        assert(s1.map[i] == s0.map[i]);
                    }
                }
            }
        }
        self.update_old_id_to_new(id, new_id);
    }

    /// Tracks a rename of the saved request `old_name` at `path`: every tab
    /// bound to it takes the new name in working copy and baseline, and the
    /// tab whose identity was derived from the old name follows the rename.
    pub fn update_old_name_to_new_name(&mut self, path: String, old_name: String, new_name: String)
        requires
            crdl_wf(old(self).deep_view()),
        ensures
            final(self).deep_view() == crdl_rename(
                old(self).deep_view(),
                path@,
                old_name@,
                new_name@,
            ),
            crdl_wf(final(self).deep_view()),
    {
        let ghost s0 = self.deep_view();
        let mut i: usize = 0;
        while i < self.data_map.len()
            invariant
                i <= self.data_map@.len(),
                self.data_map@.len() == s0.map.len(),
                self.select_id.deep_view() == s0.select,
                self.data_list.deep_view() == s0.order,
                forall|k: int| 0 <= k < i ==> #[trigger] self.data_map.deep_view()[k]
                    == rename_entry(s0.map[k], path@, old_name@, new_name@),
                forall|k: int| i <= k < s0.map.len() ==> #[trigger] self.data_map.deep_view()[k]
                    == s0.map[k],
            decreases self.data_map@.len() - i,
        {
            let ghost mpre = self.data_map.deep_view();
            proof {
                lemma_vec_deep_view_index(self.data_map, i as int);
            }
            let entry = &mut self.data_map[i];
            let ghost e0 = entry.1.deep_view();
            let matches_path = match &entry.1.collection_path {
                Some(p) => *p == path,
                None => false,
            };
            if matches_path && entry.1.rest.name == old_name {
                entry.1.rest.name = new_name.clone();
                entry.1.baseline.name = new_name.clone();
                proof {
                    assert(entry.1.deep_view() =~= (CrtImage {
                        rest: RecordImage { name: new_name@, ..e0.rest },
                        baseline: RecordImage { name: new_name@, ..e0.baseline },
                        ..e0
                    }));
                }
            }
            proof {
                assert forall|k: int| 0 <= k < self.data_map@.len() implies #[trigger] self
                    .data_map
                    .deep_view()[k] == mpre.update(
                    i as int,
                    self.data_map.deep_view()[i as int],
                )[k] by {
                    lemma_vec_deep_view_index(self.data_map, k);
                }
                assert(self.data_map.deep_view()[i as int] == rename_entry(
                    s0.map[i as int],
                    path@,
                    old_name@,
                    new_name@,
                ));
            }
            i = i + 1;
        }
        let ghost renamed = CrdlImage {
            map: Seq::new(
                s0.map.len(),
                |k: int| rename_entry(s0.map[k], path@, old_name@, new_name@),
            ),
            ..s0
        };
        proof {
            assert(self.data_map.deep_view() =~= renamed.map);
            assert(self.deep_view() =~= renamed);
            assert(crdl_wf(self.deep_view())) by {
                let s1 = self.deep_view();
                assert(s1.order == s0.order);
                assert forall|k: int| 0 <= k < s1.map.len() implies (#[trigger] s1.map[k]).0
                    == s1.order[k] && s1.map[k].1.id == s1.order[k] by {
                    assert(s1.map[k] == rename_entry(s0.map[k], path@, old_name@, new_name@));
                    assert(s0.map[k].0 == s0.order[k]);
                }
            }
        }
        let from_id = crate::path::join_path(path.as_str(), old_name.as_str());
        let to_id = crate::path::join_path(path.as_str(), new_name.as_str());
        self.update_old_id_to_new(from_id, to_id);
    }
}


/// Saving leaves the saved tab clean and bound: after [`crdl_save`] finds
/// its tab, that tab's working copy and baseline are both the saved record,
/// it is bound to the saved path, it is not dirty, and no tab appeared or
/// vanished.
pub proof fn lemma_save_leaves_tab_clean(
    s: CrdlImage,
    id: Seq<char>,
    path: Seq<char>,
    rec: RecordImage,
)
    requires
        crdl_wf(s),
        assoc_index(s.map, id) is Some,
    ensures
        ({
            let s1 = crdl_save(s, id, path, rec);
            let j = assoc_index(s.map, id)->0;
            &&& s1.map.len() == s.map.len()
            &&& s1.order.len() == s.order.len()
            &&& s1.map[j].1.rest == rec
            &&& s1.map[j].1.baseline == rec
            &&& s1.map[j].1.collection_path == Some(path)
            &&& !crt_dirty(s1.map[j].1)
        }),
{
    let j = assoc_index(s.map, id)->0;
    lemma_assoc_index(s.map, id);
    let c0 = s.map[j].1;
    let c1 = CrtImage {
        id: c0.id,
        collection_path: Some(path),
        rest: rec,
        baseline: rec,
        test_result: c0.test_result,
    };
    let sm = CrdlImage { map: s.map.update(j, (c0.id, c1)), ..s };
    assert forall|i: int| 0 <= i < j implies (#[trigger] sm.map[i]).0 != id by {
        assert(sm.map[i] == s.map[i]);
    }
    assert(sm.map[j].0 == id);
    crate::kv::lemma_assoc_index_first(sm.map, id, j);
    let nid = crate::path::joined_path(path, rec.name);
    let s1 = crdl_remap(sm, id, nid);
    if id == nid {
    } else {
        if assoc_index(sm.map, nid) is Some {
        } else {
            assert(s1.map[j].1.rest == rec);
        }
    }
}

/// A rename never loses a tab and keeps a clean one clean: the tab bound to
/// the renamed entity tracks the new name in working copy and baseline
/// alike, stays bound to its path, and the registry keeps the same number
/// of tabs — none duplicated, none orphaned.
pub proof fn lemma_rename_keeps_tab_clean(
    s: CrdlImage,
    path: Seq<char>,
    old_name: Seq<char>,
    new_name: Seq<char>,
    j: int,
)
    requires
        crdl_wf(s),
        0 <= j < s.map.len(),
        s.map[j].1.collection_path == Some(path),
        s.map[j].1.rest.name == old_name,
        !crt_dirty(s.map[j].1),
    ensures
        ({
            let s1 = crdl_rename(s, path, old_name, new_name);
            &&& s1.map.len() == s.map.len()
            &&& s1.order.len() == s.order.len()
            &&& s1.map[j].1.rest.name == new_name
            &&& s1.map[j].1.baseline.name == new_name
            &&& s1.map[j].1.collection_path == Some(path)
            &&& !crt_dirty(s1.map[j].1)
        }),
{
    let renamed = CrdlImage {
        map: Seq::new(s.map.len(), |i: int| rename_entry(s.map[i], path, old_name, new_name)),
        ..s
    };
    assert(renamed.map[j] == rename_entry(s.map[j], path, old_name, new_name));
    assert(renamed.map[j].1.rest == (RecordImage { name: new_name, ..s.map[j].1.rest }));
    assert(renamed.map[j].1.baseline == (RecordImage { name: new_name, ..s.map[j].1.baseline }));
    assert(renamed.map[j].1.rest == renamed.map[j].1.baseline);
    let from_id = crate::path::joined_path(path, old_name);
    let to_id = crate::path::joined_path(path, new_name);
    assert(crdl_rename(s, path, old_name, new_name) == crdl_remap(renamed, from_id, to_id));
    lemma_assoc_index(renamed.map, from_id);
    lemma_assoc_index(renamed.map, to_id);
    let s1 = crdl_remap(renamed, from_id, to_id);
    if from_id == to_id {
    } else {
        match assoc_index(renamed.map, from_id) {
            None => {},
            Some(p) => {
                if assoc_index(renamed.map, to_id) is Some {
                } else {
                    if p == j {
                        assert(s1.map[j].1.rest == renamed.map[j].1.rest);
                        assert(s1.map[j].1.baseline == renamed.map[j].1.baseline);
                    } else {
                        assert(s1.map[j] == renamed.map[j]);
                    }
                }
            },
        }
    }
}


/// The open/close round trip: opening a tab under a fresh id and closing
/// it again returns the registry to exactly where it was — order, store
/// and selection alike.
pub proof fn lemma_open_close_round_trip(s: CrdlImage, c: CrtImage)
    requires
        crdl_wf(s),
        assoc_index(s.map, c.id) is None,
    ensures
        crdl_remove(crdl_add(s, c), c.id) == s,
{
    lemma_assoc_index(s.map, c.id);
    let s1 = crdl_add(s, c);
    let n = s.map.len() as int;
    assert(s1.map == s.map.push((c.id, c)));
    assert forall|i: int| 0 <= i < n implies (#[trigger] s1.map[i]).0 != c.id by {
        assert(s1.map[i] == s.map[i]);
    }
    assert(s1.map[n].0 == c.id);
    crate::kv::lemma_assoc_index_first(s1.map, c.id, n);
    let s2 = crdl_remove(s1, c.id);
    assert(s2.map =~= s.map);
    assert(s2.order =~= s.order);
    match s.select {
        None => {},
        Some(sid) => {
            if sid == c.id {
                let w = choose|i: int| 0 <= i < s.order.len() && s.order[i] == sid;
                assert(s.map[w].0 == c.id);
            }
        },
    }
    assert(s2 =~= s);
}

} // verus!
