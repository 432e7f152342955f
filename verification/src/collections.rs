use vstd::prelude::*;

use crate::auth::{Auth, AuthImage, AuthType};
use crate::http::{HttpRecord, RecordImage};
use crate::path::{join_path, path_segments, split_path};
use crate::script::{ScriptScope, ScriptScopeImage};
use crate::views::{lemma_vec_deep_view_index, lemma_vec_deep_view_len};

verus! {

broadcast use lemma_vec_deep_view_index, lemma_vec_deep_view_len;

/// A node of the collection tree: named, carrying its own auth and scripts,
/// owning its requests and its subfolders. Folder handles of callers are
/// "/"-delimited paths; the tree alone owns its nodes.
#[derive(Debug)]
pub struct CollectionFolder {
    pub name: String,
    pub auth: Auth,
    pub pre_request_scripts: Vec<String>,
    pub test_scripts: Vec<String>,
    pub requests: Vec<HttpRecord>,
    pub folders: Vec<CollectionFolder>,
}

/// Mathematical image of a [`CollectionFolder`] subtree.
#[verifier::ext_equal]
pub struct FolderImage {
    pub name: Seq<char>,
    pub auth: AuthImage,
    pub pre_request_scripts: Seq<Seq<char>>,
    pub test_scripts: Seq<Seq<char>>,
    pub requests: Seq<RecordImage>,
    pub folders: Seq<FolderImage>,
}

/// The image of a whole folder subtree.
pub open spec fn folder_image(f: CollectionFolder) -> FolderImage
    decreases f,
{
    FolderImage {
        name: f.name.deep_view(),
        auth: f.auth.deep_view(),
        pre_request_scripts: f.pre_request_scripts.deep_view(),
        test_scripts: f.test_scripts.deep_view(),
        requests: f.requests.deep_view(),
        folders: folders_image(f.folders@),
    }
}

/// The images of a row of sibling folders.
pub open spec fn folders_image(s: Seq<CollectionFolder>) -> Seq<FolderImage>
    decreases s,
{
    if s.len() == 0 {
        Seq::empty()
    } else {
        seq![folder_image(s[0])].add(folders_image(s.drop_first()))
    }
}

/// Sibling images are the element images, in order.
pub proof fn lemma_folders_image(s: Seq<CollectionFolder>)
    ensures
        folders_image(s).len() == s.len(),
        forall|i: int| 0 <= i < s.len() ==> folders_image(s)[i] == folder_image(s[i]),
    decreases s.len(),
{
    if s.len() > 0 {
        let t = s.drop_first();
        lemma_folders_image(t);
        assert(forall|i: int| 0 <= i < t.len() ==> t[i] == s[i + 1]);
        assert forall|i: int| 0 <= i < s.len() implies folders_image(s)[i] == folder_image(
            s[i],
        ) by {
            if i > 0 {
                assert(folders_image(s)[i] == folders_image(t)[i - 1]);
                assert(t[i - 1] == s[i]);
            }
        }
    }
}

impl DeepView for CollectionFolder {
    type V = FolderImage;

    open spec fn deep_view(&self) -> FolderImage {
        folder_image(*self)
    }
}

/// A top-level named tree of folders and requests; its name is the name of
/// its root folder.
#[derive(Debug)]
pub struct Collection {
    pub folder: CollectionFolder,
}

impl DeepView for Collection {
    type V = FolderImage;

    open spec fn deep_view(&self) -> FolderImage {
        folder_image(self.folder)
    }
}

/// The position of the first subfolder called `name`, if any.
pub open spec fn child_index(fs: Seq<FolderImage>, name: Seq<char>) -> Option<int>
    decreases fs.len(),
{
    if fs.len() == 0 {
        None
    } else if fs[0].name == name {
        Some(0)
    } else {
        match child_index(fs.drop_first(), name) {
            None => None,
            Some(j) => Some(j + 1),
        }
    }
}

/// What [`child_index`] finds is the first match.
pub proof fn lemma_child_index(fs: Seq<FolderImage>, name: Seq<char>)
    ensures
        match child_index(fs, name) {
            None => forall|i: int| 0 <= i < fs.len() ==> (#[trigger] fs[i]).name != name,
            Some(j) => 0 <= j < fs.len() && fs[j].name == name && forall|i: int|
                0 <= i < j ==> (#[trigger] fs[i]).name != name,
        },
    decreases fs.len(),
{
    if fs.len() > 0 {
        let t = fs.drop_first();
        lemma_child_index(t, name);
        assert(forall|i: int| 0 <= i < t.len() ==> t[i] == fs[i + 1]);
        if fs[0].name != name {
            match child_index(t, name) {
                None => {
                    assert forall|i: int| 0 <= i < fs.len() implies (#[trigger] fs[i]).name
                        != name by {
                        if i > 0 {
                            assert(t[i - 1] == fs[i]);
                        }
                    }
                },
                Some(j) => {
                    assert(t[j] == fs[j + 1]);
                    assert forall|i: int| 0 <= i < j + 1 implies (#[trigger] fs[i]).name
                        != name by {
                        if i > 0 {
                            assert(t[i - 1] == fs[i]);
                        }
                    }
                },
            }
        }
    }
}

/// The first subfolder called `name`, if any.
pub open spec fn find_child(fs: Seq<FolderImage>, name: Seq<char>) -> Option<FolderImage> {
    match child_index(fs, name) {
        None => None,
        Some(j) => Some(fs[j]),
    }
}

/// The position of the first request called `name`, if any.
pub open spec fn request_index(rs: Seq<RecordImage>, name: Seq<char>) -> Option<int>
    decreases rs.len(),
{
    if rs.len() == 0 {
        None
    } else if rs[0].name == name {
        Some(0)
    } else {
        match request_index(rs.drop_first(), name) {
            None => None,
            Some(j) => Some(j + 1),
        }
    }
}

/// What [`request_index`] finds is the first match.
pub proof fn lemma_request_index(rs: Seq<RecordImage>, name: Seq<char>)
    ensures
        match request_index(rs, name) {
            None => forall|i: int| 0 <= i < rs.len() ==> (#[trigger] rs[i]).name != name,
            Some(j) => 0 <= j < rs.len() && rs[j].name == name && forall|i: int|
                0 <= i < j ==> (#[trigger] rs[i]).name != name,
        },
    decreases rs.len(),
{
    if rs.len() > 0 {
        let t = rs.drop_first();
        lemma_request_index(t, name);
        assert(forall|i: int| 0 <= i < t.len() ==> t[i] == rs[i + 1]);
        if rs[0].name != name {
            match request_index(t, name) {
                None => {
                    assert forall|i: int| 0 <= i < rs.len() implies (#[trigger] rs[i]).name
                        != name by {
                        if i > 0 {
                            assert(t[i - 1] == rs[i]);
                        }
                    }
                },
                Some(j) => {
                    assert(t[j] == rs[j + 1]);
                    assert forall|i: int| 0 <= i < j + 1 implies (#[trigger] rs[i]).name
                        != name by {
                        if i > 0 {
                            assert(t[i - 1] == rs[i]);
                        }
                    }
                },
            }
        }
    }
}

/// Walks `segs` down from `f`, matching each segment against subfolder
/// names; the folder reached when every segment matched.
pub open spec fn descend(f: FolderImage, segs: Seq<Seq<char>>) -> Option<FolderImage>
    decreases segs.len(),
{
    if segs.len() == 0 {
        Some(f)
    } else {
        match find_child(f.folders, segs[0]) {
            None => None,
            Some(c) => descend(c, segs.drop_first()),
        }
    }
}

/// What resolving a path yields: the deepest folder the path's folder
/// segments reach, and the trailing name (typically a request's) that was
/// not itself a folder, empty if every segment named a folder.
pub open spec fn resolve_spec(cols: Seq<FolderImage>, segs: Seq<Seq<char>>) -> (
    Seq<char>,
    Option<FolderImage>,
)
    recommends
        segs.len() >= 1,
{
    match find_child(cols, segs[0]) {
        None => (segs[0], None::<FolderImage>),
        Some(root) => {
            let rest = segs.drop_first();
            if rest.len() == 0 {
                (Seq::<char>::empty(), Some(root))
            } else {
                match descend(root, rest.drop_last()) {
                    None => (segs[0], None::<FolderImage>),
                    Some(f) => match find_child(f.folders, rest.last()) {
                        Some(leaf) => (Seq::<char>::empty(), Some(leaf)),
                        None => (rest.last(), Some(f)),
                    },
                }
            }
        },
    }
}

impl CollectionFolder {
    /// A new folder of this name with no auth, scripts, requests or
    /// subfolders.
    pub fn new(name: String) -> (r: CollectionFolder)
        ensures
            r.deep_view() == (FolderImage {
                name: name@,
                auth: AuthImage::no_auth(),
                pre_request_scripts: Seq::empty(),
                test_scripts: Seq::empty(),
                requests: Seq::empty(),
                folders: Seq::empty(),
            }),
    {
        let r = CollectionFolder {
            name,
            auth: Auth::no_auth(),
            pre_request_scripts: Vec::new(),
            test_scripts: Vec::new(),
            requests: Vec::new(),
            folders: Vec::new(),
        };
        assert(r.deep_view() =~= (FolderImage {
            name: r.name@,
            auth: AuthImage::no_auth(),
            pre_request_scripts: Seq::empty(),
            test_scripts: Seq::empty(),
            requests: Seq::empty(),
            folders: Seq::empty(),
        }));
        r
    }

    /// An exact copy of the whole subtree.
    pub fn deep_copy(&self) -> (r: CollectionFolder)
        ensures
            r.deep_view() == self.deep_view(),
        decreases *self,
    {
        let mut folders: Vec<CollectionFolder> = Vec::new();
        let mut i: usize = 0;
        while i < self.folders.len()
            invariant
                i <= self.folders.len(),
                folders@.len() == i,
                forall|j: int| 0 <= j < i ==> #[trigger] folder_image(folders@[j])
                    == folder_image(self.folders@[j]),
            decreases self.folders.len() - i,
        {
            proof {
                assert(decreases_to!(*self => self.folders@[i as int]));
            }
            let child = self.folders[i].deep_copy();
            folders.push(child);
            i = i + 1;
        }
        let mut requests: Vec<HttpRecord> = Vec::new();
        let mut k: usize = 0;
        while k < self.requests.len()
            invariant
                k <= self.requests.len(),
                requests@.len() == k,
                forall|j: int| 0 <= j < k ==> #[trigger] requests@[j].deep_view()
                    == self.requests@[j].deep_view(),
            decreases self.requests.len() - k,
        {
            requests.push(self.requests[k].deep_copy());
            k = k + 1;
        }
        let r = CollectionFolder {
            name: self.name.clone(),
            auth: self.auth.deep_copy(),
            pre_request_scripts: crate::views::strings_copy(&self.pre_request_scripts),
            test_scripts: crate::views::strings_copy(&self.test_scripts),
            requests,
            folders,
        };
        proof {
            lemma_folders_image(r.folders@);
            lemma_folders_image(self.folders@);
            assert(r.deep_view().folders =~= self.deep_view().folders);
            assert(r.deep_view().requests =~= self.deep_view().requests);
            assert(r.deep_view() =~= self.deep_view());
        }
        r
    }
}


/// The images of path segments `from..to`.
pub open spec fn seg_images(segs: Vec<String>, from: int, to: int) -> Seq<Seq<char>> {
    segs.deep_view().subrange(from, to)
}

/// Finds the first subfolder of this name.
fn find_child_at(fs: &Vec<CollectionFolder>, name: &String) -> (r: Option<usize>)
    ensures
        match r {
            Some(j) => j < fs@.len() && child_index(folders_image(fs@), name@) == Some(j as int),
            None => child_index(folders_image(fs@), name@) is None,
        },
{
    proof {
        lemma_folders_image(fs@);
        lemma_child_index(folders_image(fs@), name@);
    }
    let mut i: usize = 0;
    while i < fs.len()
        invariant
            i <= fs@.len(),
            folders_image(fs@).len() == fs@.len(),
            forall|k: int| 0 <= k < fs@.len() ==> folders_image(fs@)[k] == folder_image(fs@[k]),
            forall|k: int| 0 <= k < i ==> (#[trigger] folders_image(fs@)[k]).name != name@,
        decreases fs@.len() - i,
    {
        if fs[i].name == *name {
            proof {
                assert(folders_image(fs@)[i as int] == folder_image(fs@[i as int]));
                assert(folders_image(fs@)[i as int].name == name@);
                lemma_child_index(folders_image(fs@), name@);
            }
            return Some(i);
        }
        i = i + 1;
    }
    None
}

/// Finds the first request of this name.
fn find_request_at(rs: &Vec<HttpRecord>, name: &String) -> (r: Option<usize>)
    ensures
        match r {
            Some(j) => j < rs@.len() && request_index(rs.deep_view(), name@) == Some(j as int),
            None => request_index(rs.deep_view(), name@) is None,
        },
{
    proof {
        lemma_request_index(rs.deep_view(), name@);
    }
    let mut i: usize = 0;
    while i < rs.len()
        invariant
            i <= rs@.len(),
            forall|k: int| 0 <= k < i ==> (#[trigger] rs.deep_view()[k]).name != name@,
        decreases rs@.len() - i,
    {
        if rs[i].name == *name {
            proof {
                lemma_request_index(rs.deep_view(), name@);
                assert(rs.deep_view()[i as int] == rs@[i as int].deep_view());
            }
            return Some(i);
        }
        proof {
            assert(rs.deep_view()[i as int] == rs@[i as int].deep_view());
        }
        i = i + 1;
    }
    None
}

/// Walks the given segment range down from `f`, as [`descend`] does.
fn descend_at<'a>(f: &'a CollectionFolder, segs: &Vec<String>, from: usize, to: usize) -> (r:
    Option<&'a CollectionFolder>)
    requires
        from <= to <= segs@.len(),
    ensures
        match r {
            Some(g) => descend(f.deep_view(), seg_images(*segs, from as int, to as int)) == Some(
                g.deep_view(),
            ),
            None => descend(f.deep_view(), seg_images(*segs, from as int, to as int)) is None,
        },
    decreases to - from,
{
    if from == to {
        proof {
            assert(seg_images(*segs, from as int, to as int) =~= Seq::<Seq<char>>::empty());
        }
        Some(f)
    } else {
        let ghost s = seg_images(*segs, from as int, to as int);
        proof {
            assert(s[0] == segs@[from as int]@);
            assert(s.drop_first() =~= seg_images(*segs, from as int + 1, to as int));
        }
        match find_child_at(&f.folders, &segs[from]) {
            None => {
                assert(find_child(f.deep_view().folders, s[0]) is None);
                None
            },
            Some(j) => {
                proof {
                    lemma_folders_image(f.folders@);
                    assert(find_child(f.deep_view().folders, s[0]) == Some(folder_image(
                        f.folders@[j as int],
                    )));
                }
                descend_at(&f.folders[j], segs, from + 1, to)
            },
        }
    }
}

/// The named collection trees, in the order they were added; the session's
/// whole request store.
#[derive(Debug, Default)]
pub struct Collections {
    pub data: Vec<Collection>,
}

impl DeepView for Collections {
    type V = Seq<FolderImage>;

    open spec fn deep_view(&self) -> Seq<FolderImage> {
        self.data.deep_view()
    }
}

impl Collections {
    /// An empty store.
    pub fn new() -> (r: Collections)
        ensures
            r.deep_view() == Seq::<FolderImage>::empty(),
    {
        let r = Collections { data: Vec::new() };
        assert(r.deep_view() =~= Seq::<FolderImage>::empty());
        r
    }

    /// Finds the position of the collection of this name.
    fn find_collection_at(&self, name: &String) -> (r: Option<usize>)
        ensures
            match r {
                Some(j) => j < self.data@.len() && child_index(self.deep_view(), name@) == Some(
                    j as int,
                ),
                None => child_index(self.deep_view(), name@) is None,
            },
    {
        proof {
            lemma_child_index(self.deep_view(), name@);
        }
        let mut i: usize = 0;
        while i < self.data.len()
            invariant
                i <= self.data@.len(),
                forall|k: int| 0 <= k < i ==> (#[trigger] self.deep_view()[k]).name != name@,
            decreases self.data@.len() - i,
        {
            if self.data[i].folder.name == *name {
                proof {
                    lemma_child_index(self.deep_view(), name@);
                    assert(self.deep_view()[i as int] == self.data@[i as int].deep_view());
                }
                return Some(i);
            }
            proof {
                assert(self.deep_view()[i as int] == self.data@[i as int].deep_view());
            }
            i = i + 1;
        }
        None
    }

    /// Resolves a path to the deepest folder its segments reach, handing
    /// back a point-in-time copy of that folder and the unmatched trailing
    /// name, empty if every segment named a folder. A path that misses
    /// yields no folder and the path unchanged.
    pub fn get_folder_with_path(&self, path: String) -> (r: (String, Option<CollectionFolder>))
        ensures
            ({
                let (rem, fo) = resolve_spec(self.deep_view(), path_segments(path@));
                match r.1 {
                    Some(f) => fo == Some(f.deep_view()) && r.0@ == rem,
                    None => fo is None && r.0@ == path@,
                }
            }),
    {
        let segs = split_path(path.as_str());
        let ghost sv = segs.deep_view();
        proof {
            assert(sv[0] == segs@[0]@);
        }
        match self.find_collection_at(&segs[0]) {
            None => (path, None),
            Some(ci) => {
                proof {
                    let ghost di = self.data@[ci as int];
                    assert(find_child(self.deep_view(), sv[0]) == Some(di.deep_view()));
                }
                let root = &self.data[ci].folder;
                if segs.len() == 1 {
                    proof {
                        assert(sv.drop_first().len() == 0);
                    }
                    return (String::new(), Some(root.deep_copy()));
                }
                let ghost rest = sv.drop_first();
                proof {
                    assert(rest.drop_last() =~= seg_images(segs, 1, segs@.len() - 1));
                }
                match descend_at(root, &segs, 1, segs.len() - 1) {
                    None => (path, None),
                    Some(parent) => {
                        let last = segs.len() - 1;
                        proof {
                            assert(rest.last() == segs@[last as int]@);
                        }
                        match find_child_at(&parent.folders, &segs[last]) {
                            Some(j) => {
                                proof {
                                    lemma_folders_image(parent.folders@);
                                }
                                (String::new(), Some(parent.folders[j].deep_copy()))
                            },
                            None => (segs[last].clone(), Some(parent.deep_copy())),
                        }
                    },
                }
            },
        }
    }
}


/// The auth a folder itself contributes: its own, unless it carries none.
pub open spec fn own_auth(f: FolderImage) -> AuthImage {
    if f.auth.auth_type != AuthType::NoAuth {
        f.auth
    } else {
        AuthImage::no_auth()
    }
}

/// Ancestor-chain auth resolution from `f` along `segs`: the auth of the
/// deepest folder on the matched chain that defines one; segments past the
/// first mismatch (typically the trailing request name) contribute nothing.
pub open spec fn auth_along(f: FolderImage, segs: Seq<Seq<char>>) -> AuthImage
    decreases segs.len(),
{
    if segs.len() == 0 {
        own_auth(f)
    } else {
        match find_child(f.folders, segs[0]) {
            None => own_auth(f),
            Some(c) => {
                let deeper = auth_along(c, segs.drop_first());
                if deeper.auth_type != AuthType::NoAuth {
                    deeper
                } else {
                    own_auth(f)
                }
            },
        }
    }
}

/// Auth resolution for a whole path: nothing when the collection is
/// unknown, else the chain resolution below its root.
pub open spec fn collections_auth(cols: Seq<FolderImage>, segs: Seq<Seq<char>>) -> AuthImage
    recommends
        segs.len() >= 1,
{
    match find_child(cols, segs[0]) {
        None => AuthImage::no_auth(),
        Some(root) => auth_along(root, segs.drop_first()),
    }
}

/// Ancestor-chain auth resolution below `f`, over segments `from..`.
fn auth_at(f: &CollectionFolder, segs: &Vec<String>, from: usize) -> (r: Auth)
    requires
        from <= segs@.len(),
    ensures
        r.deep_view() == auth_along(f.deep_view(), seg_images(*segs, from as int, segs@.len() as int)),
    decreases segs@.len() - from,
{
    let ghost s = seg_images(*segs, from as int, segs@.len() as int);
    let mut deeper: Option<Auth> = None;
    if from < segs.len() {
        proof {
            assert(s[0] == segs@[from as int]@);
            assert(s.drop_first() =~= seg_images(*segs, from as int + 1, segs@.len() as int));
        }
        match find_child_at(&f.folders, &segs[from]) {
            None => {},
            Some(j) => {
                proof {
                    lemma_folders_image(f.folders@);
                }
                deeper = Some(auth_at(&f.folders[j], segs, from + 1));
            },
        }
    } else {
        proof {
            assert(s.len() == 0);
        }
    }
    match deeper {
        Some(a) => {
            if !(a.auth_type == AuthType::NoAuth) {
                a
            } else {
                if !(f.auth.auth_type == AuthType::NoAuth) {
                    f.auth.deep_copy()
                } else {
                    Auth::no_auth()
                }
            }
        },
        None => {
            if !(f.auth.auth_type == AuthType::NoAuth) {
                f.auth.deep_copy()
            } else {
                Auth::no_auth()
            }
        },
    }
}

/// Labelled rows for one folder's own script list.
pub open spec fn scope_rows(list: Seq<Seq<char>>, scope: Seq<char>) -> Seq<ScriptScopeImage> {
    Seq::new(list.len(), |i: int| ScriptScopeImage { script: list[i], scope: scope })
}

/// The pre-request scripts gathered root-to-leaf along the matched chain,
/// each labelled with the path of the folder it came from.
pub open spec fn pre_scripts_along(
    f: FolderImage,
    prefix: Seq<char>,
    segs: Seq<Seq<char>>,
) -> Seq<ScriptScopeImage>
    decreases segs.len(),
{
    scope_rows(f.pre_request_scripts, prefix).add(
        if segs.len() == 0 {
            Seq::<ScriptScopeImage>::empty()
        } else {
            match find_child(f.folders, segs[0]) {
                None => Seq::<ScriptScopeImage>::empty(),
                Some(c) => pre_scripts_along(
                    c,
                    crate::path::joined_path(prefix, segs[0]),
                    segs.drop_first(),
                ),
            }
        },
    )
}

/// The test scripts gathered root-to-leaf along the matched chain.
pub open spec fn test_scripts_along(
    f: FolderImage,
    prefix: Seq<char>,
    segs: Seq<Seq<char>>,
) -> Seq<ScriptScopeImage>
    decreases segs.len(),
{
    scope_rows(f.test_scripts, prefix).add(
        if segs.len() == 0 {
            Seq::<ScriptScopeImage>::empty()
        } else {
            match find_child(f.folders, segs[0]) {
                None => Seq::<ScriptScopeImage>::empty(),
                Some(c) => test_scripts_along(
                    c,
                    crate::path::joined_path(prefix, segs[0]),
                    segs.drop_first(),
                ),
            }
        },
    )
}

/// Script resolution for a whole path: empty when the collection is
/// unknown, else the root-to-leaf gathering below its root.
pub open spec fn collections_pre_scripts(cols: Seq<FolderImage>, segs: Seq<Seq<char>>) -> Seq<
    ScriptScopeImage,
>
    recommends
        segs.len() >= 1,
{
    match find_child(cols, segs[0]) {
        None => Seq::empty(),
        Some(root) => pre_scripts_along(root, segs[0], segs.drop_first()),
    }
}

/// As [`collections_pre_scripts`], for the test lists.
pub open spec fn collections_test_scripts(cols: Seq<FolderImage>, segs: Seq<Seq<char>>) -> Seq<
    ScriptScopeImage,
>
    recommends
        segs.len() >= 1,
{
    match find_child(cols, segs[0]) {
        None => Seq::empty(),
        Some(root) => test_scripts_along(root, segs[0], segs.drop_first()),
    }
}

/// Labels every script of `list` with `scope` and appends the rows to `out`.
fn push_scope_rows(out: &mut Vec<ScriptScope>, list: &Vec<String>, scope: &String)
    ensures
        final(out).deep_view() == old(out).deep_view().add(scope_rows(list.deep_view(), scope@)),
{
    let mut i: usize = 0;
    while i < list.len()
        invariant
            i <= list@.len(),
            out@.len() == old(out)@.len() + i,
            out.deep_view() =~= old(out).deep_view().add(
                scope_rows(list.deep_view(), scope@).subrange(0, i as int),
            ),
        decreases list@.len() - i,
    {
        let row = ScriptScope { script: list[i].clone(), scope: scope.clone() };
        let ghost out0 = *out;
        out.push(row);
        proof {
            assert(row.deep_view() == scope_rows(list.deep_view(), scope@)[i as int]);
            assert forall|k: int| 0 <= k < out@.len() implies #[trigger] out.deep_view()[k]
                == out0.deep_view().push(row.deep_view())[k] by {
                lemma_vec_deep_view_index(*out, k);
                if k < out0@.len() {
                    lemma_vec_deep_view_index(out0, k);
                }
            }
            assert(out.deep_view() =~= out0.deep_view().push(row.deep_view()));
            assert(out.deep_view() =~= old(out).deep_view().add(
                scope_rows(list.deep_view(), scope@).subrange(0, i + 1),
            ));
        }
        i = i + 1;
    }
    proof {
        assert(scope_rows(list.deep_view(), scope@).subrange(0, list@.len() as int) =~= scope_rows(
            list.deep_view(),
            scope@,
        ));
    }
}

/// Gathers both script lists below `f` over segments `from..`, labelling
/// rows with the growing path prefix.
fn scripts_at(f: &CollectionFolder, prefix: &String, segs: &Vec<String>, from: usize) -> (r: (
    Vec<ScriptScope>,
    Vec<ScriptScope>,
))
    requires
        from <= segs@.len(),
    ensures
        r.0.deep_view() == pre_scripts_along(
            f.deep_view(),
            prefix@,
            seg_images(*segs, from as int, segs@.len() as int),
        ),
        r.1.deep_view() == test_scripts_along(
            f.deep_view(),
            prefix@,
            seg_images(*segs, from as int, segs@.len() as int),
        ),
    decreases segs@.len() - from,
{
    let ghost s = seg_images(*segs, from as int, segs@.len() as int);
    let mut pre: Vec<ScriptScope> = Vec::new();
    let mut test: Vec<ScriptScope> = Vec::new();
    proof {
        assert(pre.deep_view() =~= Seq::<ScriptScopeImage>::empty());
        assert(test.deep_view() =~= Seq::<ScriptScopeImage>::empty());
    }
    push_scope_rows(&mut pre, &f.pre_request_scripts, prefix);
    push_scope_rows(&mut test, &f.test_scripts, prefix);
    proof {
        assert(pre.deep_view() =~= scope_rows(f.deep_view().pre_request_scripts, prefix@));
        assert(test.deep_view() =~= scope_rows(f.deep_view().test_scripts, prefix@));
    }
    if from < segs.len() {
        proof {
            assert(s[0] == segs@[from as int]@);
            assert(s.drop_first() =~= seg_images(*segs, from as int + 1, segs@.len() as int));
        }
        match find_child_at(&f.folders, &segs[from]) {
            None => {
                proof {
                    assert(pre.deep_view() =~= pre_scripts_along(f.deep_view(), prefix@, s));
                    assert(test.deep_view() =~= test_scripts_along(f.deep_view(), prefix@, s));
                }
            },
            Some(j) => {
                proof {
                    lemma_folders_image(f.folders@);
                }
                let child_prefix = join_path(prefix.as_str(), segs[from].as_str());
                let (mut cpre, mut ctest) = scripts_at(&f.folders[j], &child_prefix, segs, from + 1);
                let ghost pre0 = pre;
                let ghost test0 = test;
                let ghost cprev = cpre.deep_view();
                let ghost ctestv = ctest.deep_view();
                pre.append(&mut cpre);
                test.append(&mut ctest);
                proof {
                    assert forall|k: int| 0 <= k < pre@.len() implies #[trigger] pre.deep_view()[k]
                        == pre0.deep_view().add(cprev)[k] by {
                        lemma_vec_deep_view_index(pre, k);
                        if k < pre0@.len() {
                            lemma_vec_deep_view_index(pre0, k);
                        }
                    }
                    assert(pre.deep_view() =~= pre0.deep_view().add(cprev));
                    assert(pre.deep_view() =~= pre_scripts_along(f.deep_view(), prefix@, s));
                    assert forall|k: int| 0 <= k < test@.len() implies #[trigger] test.deep_view()[k]
                        == test0.deep_view().add(ctestv)[k] by {
                        lemma_vec_deep_view_index(test, k);
                        if k < test0@.len() {
                            lemma_vec_deep_view_index(test0, k);
                        }
                    }
                    assert(test.deep_view() =~= test0.deep_view().add(ctestv));
                    assert(test.deep_view() =~= test_scripts_along(f.deep_view(), prefix@, s));
                }
            },
        }
    } else {
        proof {
            assert(s.len() == 0);
            assert(pre.deep_view() =~= pre_scripts_along(f.deep_view(), prefix@, s));
            assert(test.deep_view() =~= test_scripts_along(f.deep_view(), prefix@, s));
        }
    }
    (pre, test)
}


/// A request table after a last-write-wins insert by name.
pub open spec fn upsert_request(rs: Seq<RecordImage>, rec: RecordImage) -> Seq<RecordImage> {
    match request_index(rs, rec.name) {
        Some(j) => rs.update(j, rec),
        None => rs.push(rec),
    }
}

/// A request table after a remove by name; unchanged when absent.
pub open spec fn remove_request(rs: Seq<RecordImage>, name: Seq<char>) -> Seq<RecordImage> {
    match request_index(rs, name) {
        Some(j) => rs.remove(j),
        None => rs,
    }
}

/// A sibling row after a replace-or-append insert by folder name.
pub open spec fn upsert_child(fs: Seq<FolderImage>, c: FolderImage) -> Seq<FolderImage> {
    match child_index(fs, c.name) {
        Some(j) => fs.update(j, c),
        None => fs.push(c),
    }
}

/// A sibling row after a remove by name; the whole subtree goes with it.
pub open spec fn remove_child(fs: Seq<FolderImage>, name: Seq<char>) -> Seq<FolderImage> {
    match child_index(fs, name) {
        Some(j) => fs.remove(j),
        None => fs,
    }
}

/// The tree below `f` after inserting `rec` into the folder that `segs`
/// addresses; unchanged when a segment is unmatched.
pub open spec fn folder_insert_record(
    f: FolderImage,
    segs: Seq<Seq<char>>,
    rec: RecordImage,
) -> FolderImage
    decreases segs.len(),
{
    if segs.len() == 0 {
        FolderImage { requests: upsert_request(f.requests, rec), ..f }
    } else {
        match child_index(f.folders, segs[0]) {
            None => f,
            Some(j) => FolderImage {
                folders: f.folders.update(
                    j,
                    folder_insert_record(f.folders[j], segs.drop_first(), rec),
                ),
                ..f
            },
        }
    }
}

/// The tree below `f` after removing the named request from the folder that
/// `segs` addresses; unchanged when a segment is unmatched.
pub open spec fn folder_remove_record(
    f: FolderImage,
    segs: Seq<Seq<char>>,
    name: Seq<char>,
) -> FolderImage
    decreases segs.len(),
{
    if segs.len() == 0 {
        FolderImage { requests: remove_request(f.requests, name), ..f }
    } else {
        match child_index(f.folders, segs[0]) {
            None => f,
            Some(j) => FolderImage {
                folders: f.folders.update(
                    j,
                    folder_remove_record(f.folders[j], segs.drop_first(), name),
                ),
                ..f
            },
        }
    }
}

/// The tree below `f` after inserting subfolder `c` into the folder that
/// `segs` addresses; unchanged when a segment is unmatched.
pub open spec fn folder_insert_child(
    f: FolderImage,
    segs: Seq<Seq<char>>,
    c: FolderImage,
) -> FolderImage
    decreases segs.len(),
{
    if segs.len() == 0 {
        FolderImage { folders: upsert_child(f.folders, c), ..f }
    } else {
        match child_index(f.folders, segs[0]) {
            None => f,
            Some(j) => FolderImage {
                folders: f.folders.update(
                    j,
                    folder_insert_child(f.folders[j], segs.drop_first(), c),
                ),
                ..f
            },
        }
    }
}

/// The tree below `f` after removing the named subfolder (and its subtree)
/// from the folder that `segs` addresses.
pub open spec fn folder_remove_child(
    f: FolderImage,
    segs: Seq<Seq<char>>,
    name: Seq<char>,
) -> FolderImage
    decreases segs.len(),
{
    if segs.len() == 0 {
        FolderImage { folders: remove_child(f.folders, name), ..f }
    } else {
        match child_index(f.folders, segs[0]) {
            None => f,
            Some(j) => FolderImage {
                folders: f.folders.update(
                    j,
                    folder_remove_child(f.folders[j], segs.drop_first(), name),
                ),
                ..f
            },
        }
    }
}

/// The tree below `f` after replacing the folder that `segs` addresses by
/// `new`; unchanged when a segment is unmatched.
pub open spec fn folder_replace(
    f: FolderImage,
    segs: Seq<Seq<char>>,
    new: FolderImage,
) -> FolderImage
    decreases segs.len(),
{
    if segs.len() == 0 {
        new
    } else {
        match child_index(f.folders, segs[0]) {
            None => f,
            Some(j) => FolderImage {
                folders: f.folders.update(j, folder_replace(f.folders[j], segs.drop_first(), new)),
                ..f
            },
        }
    }
}


/// Inserts `record` by name into the folder addressed by segments `from..`.
fn insert_record_at(f: &mut CollectionFolder, segs: &Vec<String>, from: usize, record: HttpRecord)
    requires
        from <= segs@.len(),
    ensures
        folder_image(*final(f)) == folder_insert_record(
            folder_image(*old(f)),
            seg_images(*segs, from as int, segs@.len() as int),
            record.deep_view(),
        ),
    decreases segs@.len() - from,
{
    let ghost s = seg_images(*segs, from as int, segs@.len() as int);
    let ghost rv = record.deep_view();
    let ghost f0 = *f;
    if from == segs.len() {
        proof {
            assert(s.len() == 0);
        }
        match find_request_at(&f.requests, &record.name) {
            Some(j) => {
                f.requests.set(j, record);
                proof {
                    assert forall|k: int| 0 <= k < f.requests@.len() implies #[trigger] f
                        .requests
                        .deep_view()[k] == f0.requests.deep_view().update(j as int, rv)[k] by {
                        lemma_vec_deep_view_index(f.requests, k);
                        lemma_vec_deep_view_index(f0.requests, k);
                    }
                    assert(f.requests.deep_view() =~= f0.requests.deep_view().update(j as int, rv));
                    assert(folder_image(*f) =~= folder_insert_record(folder_image(f0), s, rv));
                }
            },
            None => {
                f.requests.push(record);
                proof {
                    assert forall|k: int| 0 <= k < f.requests@.len() implies #[trigger] f
                        .requests
                        .deep_view()[k] == f0.requests.deep_view().push(rv)[k] by {
                        lemma_vec_deep_view_index(f.requests, k);
                        if k < f0.requests@.len() {
                            lemma_vec_deep_view_index(f0.requests, k);
                        }
                    }
                    assert(f.requests.deep_view() =~= f0.requests.deep_view().push(rv));
                    assert(folder_image(*f) =~= folder_insert_record(folder_image(f0), s, rv));
                }
            },
        }
    } else {
        proof {
            assert(s[0] == segs@[from as int]@);
            assert(s.drop_first() =~= seg_images(*segs, from as int + 1, segs@.len() as int));
            lemma_folders_image(f0.folders@);
        }
        match find_child_at(&f.folders, &segs[from]) {
            None => {
                proof {
                    assert(folder_image(*f) == folder_insert_record(folder_image(f0), s, rv));
                }
            },
            Some(j) => {
                let child = &mut f.folders[j];
                insert_record_at(child, segs, from + 1, record);
                proof {
                    lemma_folders_image(f.folders@);
                    assert(folders_image(f.folders@) =~= folders_image(f0.folders@).update(
                        j as int,
                        folder_image(f.folders@[j as int]),
                    ));
                    assert(folder_image(*f) =~= folder_insert_record(folder_image(f0), s, rv));
                }
            },
        }
    }
}

/// Removes the request called `name` from the folder addressed by segments
/// `from..`.
fn remove_record_at(f: &mut CollectionFolder, segs: &Vec<String>, from: usize, name: &String)
    requires
        from <= segs@.len(),
    ensures
        folder_image(*final(f)) == folder_remove_record(
            folder_image(*old(f)),
            seg_images(*segs, from as int, segs@.len() as int),
            name@,
        ),
    decreases segs@.len() - from,
{
    let ghost s = seg_images(*segs, from as int, segs@.len() as int);
    let ghost f0 = *f;
    if from == segs.len() {
        proof {
            assert(s.len() == 0);
        }
        match find_request_at(&f.requests, name) {
            Some(j) => {
                f.requests.remove(j);
                proof {
                    assert forall|k: int| 0 <= k < f.requests@.len() implies #[trigger] f
                        .requests
                        .deep_view()[k] == f0.requests.deep_view().remove(j as int)[k] by {
                        lemma_vec_deep_view_index(f.requests, k);
                        lemma_vec_deep_view_index(f0.requests, k);
                        if k >= j {
                            lemma_vec_deep_view_index(f0.requests, k + 1);
                        }
                    }
                    assert(f.requests.deep_view() =~= f0.requests.deep_view().remove(j as int));
                    assert(folder_image(*f) =~= folder_remove_record(folder_image(f0), s, name@));
                }
            },
            None => {
                proof {
                    assert(folder_image(*f) == folder_remove_record(folder_image(f0), s, name@));
                }
            },
        }
    } else {
        proof {
            assert(s[0] == segs@[from as int]@);
            assert(s.drop_first() =~= seg_images(*segs, from as int + 1, segs@.len() as int));
            lemma_folders_image(f0.folders@);
        }
        match find_child_at(&f.folders, &segs[from]) {
            None => {
                proof {
                    assert(folder_image(*f) == folder_remove_record(folder_image(f0), s, name@));
                }
            },
            Some(j) => {
                let child = &mut f.folders[j];
                remove_record_at(child, segs, from + 1, name);
                proof {
                    lemma_folders_image(f.folders@);
                    assert(folders_image(f.folders@) =~= folders_image(f0.folders@).update(
                        j as int,
                        folder_image(f.folders@[j as int]),
                    ));
                    assert(folder_image(*f) =~= folder_remove_record(folder_image(f0), s, name@));
                }
            },
        }
    }
}

/// Inserts subfolder `nf` by name into the folder addressed by segments
/// `from..`.
fn insert_child_at(f: &mut CollectionFolder, segs: &Vec<String>, from: usize, nf: CollectionFolder)
    requires
        from <= segs@.len(),
    ensures
        folder_image(*final(f)) == folder_insert_child(
            folder_image(*old(f)),
            seg_images(*segs, from as int, segs@.len() as int),
            folder_image(nf),
        ),
    decreases segs@.len() - from,
{
    let ghost s = seg_images(*segs, from as int, segs@.len() as int);
    let ghost nv = folder_image(nf);
    let ghost f0 = *f;
    if from == segs.len() {
        proof {
            assert(s.len() == 0);
            lemma_folders_image(f0.folders@);
        }
        match find_child_at(&f.folders, &nf.name) {
            Some(j) => {
                f.folders.set(j, nf);
                proof {
                    lemma_folders_image(f.folders@);
                    assert(folders_image(f.folders@) =~= folders_image(f0.folders@).update(
                        j as int,
                        nv,
                    ));
                    assert(folder_image(*f) =~= folder_insert_child(folder_image(f0), s, nv));
                }
            },
            None => {
                f.folders.push(nf);
                proof {
                    lemma_folders_image(f.folders@);
                    assert(folders_image(f.folders@) =~= folders_image(f0.folders@).push(nv));
                    assert(folder_image(*f) =~= folder_insert_child(folder_image(f0), s, nv));
                }
            },
        }
    } else {
        proof {
            assert(s[0] == segs@[from as int]@);
            assert(s.drop_first() =~= seg_images(*segs, from as int + 1, segs@.len() as int));
            lemma_folders_image(f0.folders@);
        }
        match find_child_at(&f.folders, &segs[from]) {
            None => {
                proof {
                    assert(folder_image(*f) == folder_insert_child(folder_image(f0), s, nv));
                }
            },
            Some(j) => {
                let child = &mut f.folders[j];
                insert_child_at(child, segs, from + 1, nf);
                proof {
                    lemma_folders_image(f.folders@);
                    assert(folders_image(f.folders@) =~= folders_image(f0.folders@).update(
                        j as int,
                        folder_image(f.folders@[j as int]),
                    ));
                    assert(folder_image(*f) =~= folder_insert_child(folder_image(f0), s, nv));
                }
            },
        }
    }
}

/// Removes the subfolder called `name`, with its whole subtree, from the
/// folder addressed by segments `from..`.
fn remove_child_at(f: &mut CollectionFolder, segs: &Vec<String>, from: usize, name: &String)
    requires
        from <= segs@.len(),
    ensures
        folder_image(*final(f)) == folder_remove_child(
            folder_image(*old(f)),
            seg_images(*segs, from as int, segs@.len() as int),
            name@,
        ),
    decreases segs@.len() - from,
{
    let ghost s = seg_images(*segs, from as int, segs@.len() as int);
    let ghost f0 = *f;
    if from == segs.len() {
        proof {
            assert(s.len() == 0);
            lemma_folders_image(f0.folders@);
        }
        match find_child_at(&f.folders, name) {
            Some(j) => {
                f.folders.remove(j);
                proof {
                    lemma_folders_image(f.folders@);
                    assert(folders_image(f.folders@) =~= folders_image(f0.folders@).remove(
                        j as int,
                    ));
                    assert(folder_image(*f) =~= folder_remove_child(folder_image(f0), s, name@));
                }
            },
            None => {
                proof {
                    assert(folder_image(*f) == folder_remove_child(folder_image(f0), s, name@));
                }
            },
        }
    } else {
        proof {
            assert(s[0] == segs@[from as int]@);
            assert(s.drop_first() =~= seg_images(*segs, from as int + 1, segs@.len() as int));
            lemma_folders_image(f0.folders@);
        }
        match find_child_at(&f.folders, &segs[from]) {
            None => {
                proof {
                    assert(folder_image(*f) == folder_remove_child(folder_image(f0), s, name@));
                }
            },
            Some(j) => {
                let child = &mut f.folders[j];
                remove_child_at(child, segs, from + 1, name);
                proof {
                    lemma_folders_image(f.folders@);
                    assert(folders_image(f.folders@) =~= folders_image(f0.folders@).update(
                        j as int,
                        folder_image(f.folders@[j as int]),
                    ));
                    assert(folder_image(*f) =~= folder_remove_child(folder_image(f0), s, name@));
                }
            },
        }
    }
}

/// Replaces the folder addressed by segments `from..` with `nf`.
fn replace_at(f: &mut CollectionFolder, segs: &Vec<String>, from: usize, nf: CollectionFolder)
    requires
        from <= segs@.len(),
    ensures
        folder_image(*final(f)) == folder_replace(
            folder_image(*old(f)),
            seg_images(*segs, from as int, segs@.len() as int),
            folder_image(nf),
        ),
    decreases segs@.len() - from,
{
    let ghost s = seg_images(*segs, from as int, segs@.len() as int);
    let ghost nv = folder_image(nf);
    let ghost f0 = *f;
    if from == segs.len() {
        proof {
            assert(s.len() == 0);
        }
        *f = nf;
    } else {
        proof {
            assert(s[0] == segs@[from as int]@);
            assert(s.drop_first() =~= seg_images(*segs, from as int + 1, segs@.len() as int));
            lemma_folders_image(f0.folders@);
        }
        match find_child_at(&f.folders, &segs[from]) {
            None => {
                proof {
                    assert(folder_image(*f) == folder_replace(folder_image(f0), s, nv));
                }
            },
            Some(j) => {
                let child = &mut f.folders[j];
                replace_at(child, segs, from + 1, nf);
                proof {
                    lemma_folders_image(f.folders@);
                    assert(folders_image(f.folders@) =~= folders_image(f0.folders@).update(
                        j as int,
                        folder_image(f.folders@[j as int]),
                    ));
                    assert(folder_image(*f) =~= folder_replace(folder_image(f0), s, nv));
                }
            },
        }
    }
}


/// The store after inserting `rec` into the folder that `segs` addresses.
pub open spec fn cols_insert_record(
    cols: Seq<FolderImage>,
    segs: Seq<Seq<char>>,
    rec: RecordImage,
) -> Seq<FolderImage> {
    match child_index(cols, segs[0]) {
        None => cols,
        Some(ci) => cols.update(ci, folder_insert_record(cols[ci], segs.drop_first(), rec)),
    }
}

/// The store after removing the named request from the folder that `segs`
/// addresses.
pub open spec fn cols_remove_record(
    cols: Seq<FolderImage>,
    segs: Seq<Seq<char>>,
    name: Seq<char>,
) -> Seq<FolderImage> {
    match child_index(cols, segs[0]) {
        None => cols,
        Some(ci) => cols.update(ci, folder_remove_record(cols[ci], segs.drop_first(), name)),
    }
}

/// The store after inserting subfolder `c` into the folder that `segs`
/// addresses.
pub open spec fn cols_insert_folder(
    cols: Seq<FolderImage>,
    segs: Seq<Seq<char>>,
    c: FolderImage,
) -> Seq<FolderImage> {
    match child_index(cols, segs[0]) {
        None => cols,
        Some(ci) => cols.update(ci, folder_insert_child(cols[ci], segs.drop_first(), c)),
    }
}

/// The store after removing the named subfolder from the folder that
/// `segs` addresses.
pub open spec fn cols_remove_folder(
    cols: Seq<FolderImage>,
    segs: Seq<Seq<char>>,
    name: Seq<char>,
) -> Seq<FolderImage> {
    match child_index(cols, segs[0]) {
        None => cols,
        Some(ci) => cols.update(ci, folder_remove_child(cols[ci], segs.drop_first(), name)),
    }
}

/// The store after replacing the folder that `segs` addresses by `new`.
pub open spec fn cols_update_folder(
    cols: Seq<FolderImage>,
    segs: Seq<Seq<char>>,
    new: FolderImage,
) -> Seq<FolderImage> {
    match child_index(cols, segs[0]) {
        None => cols,
        Some(ci) => cols.update(ci, folder_replace(cols[ci], segs.drop_first(), new)),
    }
}

impl Collections {
    /// Inserts `record` into the folder at `folder_path`, overwriting any
    /// request of the same name there; a path that misses is a no-op.
    pub fn insert_http_record(&mut self, folder_path: String, record: HttpRecord)
        ensures
            final(self).deep_view() == cols_insert_record(
                old(self).deep_view(),
                path_segments(folder_path@),
                record.deep_view(),
            ),
    {
        let segs = split_path(folder_path.as_str());
        let ghost sv = segs.deep_view();
        let ghost self0 = *self;
        let ghost rv = record.deep_view();
        proof {
            assert(sv[0] == segs@[0]@);
        }
        match self.find_collection_at(&segs[0]) {
            None => {
                proof {
                    assert(self.deep_view() == cols_insert_record(self0.deep_view(), sv, rv));
                }
            },
            Some(ci) => {
                let c = &mut self.data[ci];
                insert_record_at(&mut c.folder, &segs, 1, record);
                proof {
                    assert(sv.drop_first() =~= seg_images(segs, 1, segs@.len() as int));
                    assert forall|k: int| 0 <= k < self.data@.len() implies #[trigger] self
                        .deep_view()[k] == self0.deep_view().update(
                        ci as int,
                        self.data@[ci as int].deep_view(),
                    )[k] by {
                        lemma_vec_deep_view_index(self.data, k);
                        lemma_vec_deep_view_index(self0.data, k);
                    }
                    assert(self.deep_view() =~= self0.deep_view().update(
                        ci as int,
                        self.data@[ci as int].deep_view(),
                    ));
                    assert(self.deep_view() =~= cols_insert_record(self0.deep_view(), sv, rv));
                }
            },
        }
    }

    /// Removes the request called `record_name` from the folder at
    /// `folder_path`; absent request or path is a no-op.
    pub fn remove_http_record(&mut self, folder_path: String, record_name: String)
        ensures
            final(self).deep_view() == cols_remove_record(
                old(self).deep_view(),
                path_segments(folder_path@),
                record_name@,
            ),
    {
        let segs = split_path(folder_path.as_str());
        let ghost sv = segs.deep_view();
        let ghost self0 = *self;
        proof {
            assert(sv[0] == segs@[0]@);
        }
        match self.find_collection_at(&segs[0]) {
            None => {
                proof {
                    assert(self.deep_view() == cols_remove_record(
                        self0.deep_view(),
                        sv,
                        record_name@,
                    ));
                }
            },
            Some(ci) => {
                let c = &mut self.data[ci];
                remove_record_at(&mut c.folder, &segs, 1, &record_name);
                proof {
                    assert(sv.drop_first() =~= seg_images(segs, 1, segs@.len() as int));
                    assert forall|k: int| 0 <= k < self.data@.len() implies #[trigger] self
                        .deep_view()[k] == self0.deep_view().update(
                        ci as int,
                        self.data@[ci as int].deep_view(),
                    )[k] by {
                        lemma_vec_deep_view_index(self.data, k);
                        lemma_vec_deep_view_index(self0.data, k);
                    }
                    assert(self.deep_view() =~= self0.deep_view().update(
                        ci as int,
                        self.data@[ci as int].deep_view(),
                    ));
                    assert(self.deep_view() =~= cols_remove_record(
                        self0.deep_view(),
                        sv,
                        record_name@,
                    ));
                }
            },
        }
    }

    /// Inserts `folder` into the folder at `parent_path`, overwriting any
    /// subfolder of the same name; a path that misses is a no-op.
    pub fn insert_folder(&mut self, parent_path: String, folder: CollectionFolder)
        ensures
            final(self).deep_view() == cols_insert_folder(
                old(self).deep_view(),
                path_segments(parent_path@),
                folder.deep_view(),
            ),
    {
        let segs = split_path(parent_path.as_str());
        let ghost sv = segs.deep_view();
        let ghost self0 = *self;
        let ghost fv = folder.deep_view();
        proof {
            assert(sv[0] == segs@[0]@);
        }
        match self.find_collection_at(&segs[0]) {
            None => {
                proof {
                    assert(self.deep_view() == cols_insert_folder(self0.deep_view(), sv, fv));
                }
            },
            Some(ci) => {
                let c = &mut self.data[ci];
                insert_child_at(&mut c.folder, &segs, 1, folder);
                proof {
                    assert(sv.drop_first() =~= seg_images(segs, 1, segs@.len() as int));
                    assert forall|k: int| 0 <= k < self.data@.len() implies #[trigger] self
                        .deep_view()[k] == self0.deep_view().update(
                        ci as int,
                        self.data@[ci as int].deep_view(),
                    )[k] by {
                        lemma_vec_deep_view_index(self.data, k);
                        lemma_vec_deep_view_index(self0.data, k);
                    }
                    assert(self.deep_view() =~= self0.deep_view().update(
                        ci as int,
                        self.data@[ci as int].deep_view(),
                    ));
                    assert(self.deep_view() =~= cols_insert_folder(self0.deep_view(), sv, fv));
                }
            },
        }
    }

    /// Removes the subfolder called `name`, with its whole subtree, from
    /// the folder at `parent_path`; absent folder or path is a no-op.
    pub fn remove_folder(&mut self, parent_path: String, name: String)
        ensures
            final(self).deep_view() == cols_remove_folder(
                old(self).deep_view(),
                path_segments(parent_path@),
                name@,
            ),
    {
        let segs = split_path(parent_path.as_str());
        let ghost sv = segs.deep_view();
        let ghost self0 = *self;
        proof {
            assert(sv[0] == segs@[0]@);
        }
        match self.find_collection_at(&segs[0]) {
            None => {
                proof {
                    assert(self.deep_view() == cols_remove_folder(self0.deep_view(), sv, name@));
                }
            },
            Some(ci) => {
                let c = &mut self.data[ci];
                remove_child_at(&mut c.folder, &segs, 1, &name);
                proof {
                    assert(sv.drop_first() =~= seg_images(segs, 1, segs@.len() as int));
                    assert forall|k: int| 0 <= k < self.data@.len() implies #[trigger] self
                        .deep_view()[k] == self0.deep_view().update(
                        ci as int,
                        self.data@[ci as int].deep_view(),
                    )[k] by {
                        lemma_vec_deep_view_index(self.data, k);
                        lemma_vec_deep_view_index(self0.data, k);
                    }
                    assert(self.deep_view() =~= self0.deep_view().update(
                        ci as int,
                        self.data@[ci as int].deep_view(),
                    ));
                    assert(self.deep_view() =~= cols_remove_folder(self0.deep_view(), sv, name@));
                }
            },
        }
    }

    /// Writes an edited copy of the folder at `folder_path` back into the
    /// tree, replacing the node there; a path that misses is a no-op.
    pub fn update_folder(&mut self, folder_path: String, folder: CollectionFolder)
        ensures
            final(self).deep_view() == cols_update_folder(
                old(self).deep_view(),
                path_segments(folder_path@),
                folder.deep_view(),
            ),
    {
        let segs = split_path(folder_path.as_str());
        let ghost sv = segs.deep_view();
        let ghost self0 = *self;
        let ghost fv = folder.deep_view();
        proof {
            assert(sv[0] == segs@[0]@);
        }
        match self.find_collection_at(&segs[0]) {
            None => {
                proof {
                    assert(self.deep_view() == cols_update_folder(self0.deep_view(), sv, fv));
                }
            },
            Some(ci) => {
                let c = &mut self.data[ci];
                replace_at(&mut c.folder, &segs, 1, folder);
                proof {
                    assert(sv.drop_first() =~= seg_images(segs, 1, segs@.len() as int));
                    assert forall|k: int| 0 <= k < self.data@.len() implies #[trigger] self
                        .deep_view()[k] == self0.deep_view().update(
                        ci as int,
                        self.data@[ci as int].deep_view(),
                    )[k] by {
                        lemma_vec_deep_view_index(self.data, k);
                        lemma_vec_deep_view_index(self0.data, k);
                    }
                    assert(self.deep_view() =~= self0.deep_view().update(
                        ci as int,
                        self.data@[ci as int].deep_view(),
                    ));
                    assert(self.deep_view() =~= cols_update_folder(self0.deep_view(), sv, fv));
                }
            },
        }
    }

    /// Adds `collection`, overwriting any collection of the same name.
    pub fn insert_collection(&mut self, collection: Collection)
        ensures
            final(self).deep_view() == upsert_child(old(self).deep_view(), collection.deep_view()),
    {
        let ghost self0 = *self;
        let ghost cv = collection.deep_view();
        match self.find_collection_at(&collection.folder.name) {
            Some(j) => {
                self.data.set(j, collection);
                proof {
                    assert forall|k: int| 0 <= k < self.data@.len() implies #[trigger] self
                        .deep_view()[k] == self0.deep_view().update(j as int, cv)[k] by {
                        lemma_vec_deep_view_index(self.data, k);
                        lemma_vec_deep_view_index(self0.data, k);
                    }
                    assert(self.deep_view() =~= self0.deep_view().update(j as int, cv));
                    assert(self.deep_view() =~= upsert_child(self0.deep_view(), cv));
                }
            },
            None => {
                self.data.push(collection);
                proof {
                    assert forall|k: int| 0 <= k < self.data@.len() implies #[trigger] self
                        .deep_view()[k] == self0.deep_view().push(cv)[k] by {
                        lemma_vec_deep_view_index(self.data, k);
                        if k < self0.data@.len() {
                            lemma_vec_deep_view_index(self0.data, k);
                        }
                    }
                    assert(self.deep_view() =~= self0.deep_view().push(cv));
                    assert(self.deep_view() =~= upsert_child(self0.deep_view(), cv));
                }
            },
        }
    }

    /// Removes the collection of this name with its whole tree; unknown
    /// names are a no-op.
    pub fn remove_collection(&mut self, collection_name: String)
        ensures
            final(self).deep_view() == remove_child(old(self).deep_view(), collection_name@),
    {
        let ghost self0 = *self;
        match self.find_collection_at(&collection_name) {
            Some(j) => {
                self.data.remove(j);
                proof {
                    assert forall|k: int| 0 <= k < self.data@.len() implies #[trigger] self
                        .deep_view()[k] == self0.deep_view().remove(j as int)[k] by {
                        lemma_vec_deep_view_index(self.data, k);
                        lemma_vec_deep_view_index(self0.data, k);
                        if k >= j {
                            lemma_vec_deep_view_index(self0.data, k + 1);
                        }
                    }
                    assert(self.deep_view() =~= self0.deep_view().remove(j as int));
                }
            },
            None => {},
        }
    }

    /// A point-in-time copy of the collection of this name.
    pub fn get_collection_by_name(&self, collection_name: &String) -> (r: Option<Collection>)
        ensures
            match r {
                Some(c) => find_child(self.deep_view(), collection_name@) == Some(c.deep_view()),
                None => find_child(self.deep_view(), collection_name@) is None,
            },
    {
        match self.find_collection_at(collection_name) {
            Some(j) => {
                proof {
                    assert(self.deep_view()[j as int] == self.data@[j as int].deep_view());
                }
                Some(Collection { folder: self.data[j].folder.deep_copy() })
            },
            None => None,
        }
    }

    /// The names of all collections, in store order.
    pub fn get_collection_names(&self) -> (r: Vec<String>)
        ensures
            r.deep_view().len() == self.deep_view().len(),
            forall|i: int| 0 <= i < self.deep_view().len() ==> #[trigger] r.deep_view()[i]
                == self.deep_view()[i].name,
    {
        let mut r: Vec<String> = Vec::new();
        let mut i: usize = 0;
        while i < self.data.len()
            invariant
                i <= self.data@.len(),
                r@.len() == i,
                forall|k: int| 0 <= k < i ==> #[trigger] r.deep_view()[k]
                    == self.deep_view()[k].name,
            decreases self.data@.len() - i,
        {
            let name = self.data[i].folder.name.clone();
            let ghost r0 = r;
            r.push(name);
            proof {
                assert forall|k: int| 0 <= k < i + 1 implies #[trigger] r.deep_view()[k]
                    == self.deep_view()[k].name by {
                    lemma_vec_deep_view_index(r, k);
                    lemma_vec_deep_view_index(self.data, k);
                    if k < i {
                        lemma_vec_deep_view_index(r0, k);
                    }
                }
            }
            i = i + 1;
        }
        r
    }

    /// An exact copy of the whole store.
    pub fn deep_copy(&self) -> (r: Collections)
        ensures
            r.deep_view() == self.deep_view(),
    {
        Collections { data: self.get_data() }
    }

    /// Point-in-time copies of all collections, in store order.
    pub fn get_data(&self) -> (r: Vec<Collection>)
        ensures
            r.deep_view() == self.deep_view(),
    {
        let mut r: Vec<Collection> = Vec::new();
        let mut i: usize = 0;
        while i < self.data.len()
            invariant
                i <= self.data@.len(),
                r@.len() == i,
                forall|k: int| 0 <= k < i ==> #[trigger] r.deep_view()[k] == self.deep_view()[k],
            decreases self.data@.len() - i,
        {
            let c = Collection { folder: self.data[i].folder.deep_copy() };
            let ghost r0 = r;
            r.push(c);
            proof {
                assert forall|k: int| 0 <= k < i + 1 implies #[trigger] r.deep_view()[k]
                    == self.deep_view()[k] by {
                    lemma_vec_deep_view_index(r, k);
                    lemma_vec_deep_view_index(self.data, k);
                    if k < i {
                        lemma_vec_deep_view_index(r0, k);
                    }
                }
            }
            i = i + 1;
        }
        proof {
            assert(r.deep_view() =~= self.deep_view());
        }
        r
    }

    /// Ancestor-chain auth resolution for a path, nearest non-empty auth
    /// winning; an unknown collection yields no auth.
    pub fn get_auth(&self, path: String) -> (r: Auth)
        ensures
            r.deep_view() == collections_auth(self.deep_view(), path_segments(path@)),
    {
        let segs = split_path(path.as_str());
        let ghost sv = segs.deep_view();
        proof {
            assert(sv[0] == segs@[0]@);
        }
        match self.find_collection_at(&segs[0]) {
            None => Auth::no_auth(),
            Some(ci) => {
                proof {
                    assert(self.deep_view()[ci as int] == self.data@[ci as int].deep_view());
                    assert(sv.drop_first() =~= seg_images(segs, 1, segs@.len() as int));
                }
                auth_at(&self.data[ci].folder, &segs, 1)
            },
        }
    }

    /// The pre-request and test scripts along a path, root to leaf, each
    /// labelled with the path of the folder that contributed it.
    pub fn get_path_scripts(&self, path: String) -> (r: (Vec<ScriptScope>, Vec<ScriptScope>))
        ensures
            r.0.deep_view() == collections_pre_scripts(self.deep_view(), path_segments(path@)),
            r.1.deep_view() == collections_test_scripts(self.deep_view(), path_segments(path@)),
    {
        let segs = split_path(path.as_str());
        let ghost sv = segs.deep_view();
        proof {
            assert(sv[0] == segs@[0]@);
        }
        match self.find_collection_at(&segs[0]) {
            None => {
                let pre: Vec<ScriptScope> = Vec::new();
                let test: Vec<ScriptScope> = Vec::new();
                proof {
                    assert(pre.deep_view() =~= Seq::<ScriptScopeImage>::empty());
                    assert(test.deep_view() =~= Seq::<ScriptScopeImage>::empty());
                }
                (pre, test)
            },
            Some(ci) => {
                proof {
                    assert(self.deep_view()[ci as int] == self.data@[ci as int].deep_view());
                    assert(sv.drop_first() =~= seg_images(segs, 1, segs@.len() as int));
                }
                scripts_at(&self.data[ci].folder, &segs[0], &segs, 1)
            },
        }
    }
}


/// The nearest-ancestor law of auth resolution: when any folder deeper on
/// the matched chain defines auth, that resolution stands, and the auth of
/// the folder above it does not matter.
pub proof fn lemma_nearest_auth_wins(f: FolderImage, segs: Seq<Seq<char>>)
    requires
        segs.len() > 0,
        find_child(f.folders, segs[0]) is Some,
        auth_along(
            find_child(f.folders, segs[0])->0,
            segs.drop_first(),
        ).auth_type != AuthType::NoAuth,
    ensures
        auth_along(f, segs) == auth_along(find_child(f.folders, segs[0])->0, segs.drop_first()),
{
}

/// The ordering law of script resolution: a folder's own scripts come
/// first, each labelled with the folder's path, and everything gathered
/// deeper on the chain follows them unchanged — ancestors before
/// descendants, for the pre-request list.
pub proof fn lemma_pre_scripts_root_first(f: FolderImage, prefix: Seq<char>, segs: Seq<Seq<char>>)
    ensures
        ({
            let own = scope_rows(f.pre_request_scripts, prefix);
            let r = pre_scripts_along(f, prefix, segs);
            &&& r.len() >= own.len()
            &&& r.subrange(0, own.len() as int) == own
            &&& r.subrange(own.len() as int, r.len() as int) == (if segs.len() == 0 {
                Seq::<ScriptScopeImage>::empty()
            } else {
                match find_child(f.folders, segs[0]) {
                    None => Seq::<ScriptScopeImage>::empty(),
                    Some(c) => pre_scripts_along(
                        c,
                        crate::path::joined_path(prefix, segs[0]),
                        segs.drop_first(),
                    ),
                }
            })
        }),
{
    let own = scope_rows(f.pre_request_scripts, prefix);
    let r = pre_scripts_along(f, prefix, segs);
    assert(r.subrange(0, own.len() as int) =~= own);
    let rest = r.subrange(own.len() as int, r.len() as int);
    if segs.len() == 0 {
        assert(rest =~= Seq::<ScriptScopeImage>::empty());
    } else {
        match find_child(f.folders, segs[0]) {
            None => {
                assert(rest =~= Seq::<ScriptScopeImage>::empty());
            },
            Some(c) => {
                assert(rest =~= pre_scripts_along(
                    c,
                    crate::path::joined_path(prefix, segs[0]),
                    segs.drop_first(),
                ));
            },
        }
    }
}

/// As [`lemma_pre_scripts_root_first`], for the test list.
pub proof fn lemma_test_scripts_root_first(f: FolderImage, prefix: Seq<char>, segs: Seq<Seq<char>>)
    ensures
        ({
            let own = scope_rows(f.test_scripts, prefix);
            let r = test_scripts_along(f, prefix, segs);
            &&& r.len() >= own.len()
            &&& r.subrange(0, own.len() as int) == own
            &&& r.subrange(own.len() as int, r.len() as int) == (if segs.len() == 0 {
                Seq::<ScriptScopeImage>::empty()
            } else {
                match find_child(f.folders, segs[0]) {
                    None => Seq::<ScriptScopeImage>::empty(),
                    Some(c) => test_scripts_along(
                        c,
                        crate::path::joined_path(prefix, segs[0]),
                        segs.drop_first(),
                    ),
                }
            })
        }),
{
    let own = scope_rows(f.test_scripts, prefix);
    let r = test_scripts_along(f, prefix, segs);
    assert(r.subrange(0, own.len() as int) =~= own);
    let rest = r.subrange(own.len() as int, r.len() as int);
    if segs.len() == 0 {
        assert(rest =~= Seq::<ScriptScopeImage>::empty());
    } else {
        match find_child(f.folders, segs[0]) {
            None => {
                assert(rest =~= Seq::<ScriptScopeImage>::empty());
            },
            Some(c) => {
                assert(rest =~= test_scripts_along(
                    c,
                    crate::path::joined_path(prefix, segs[0]),
                    segs.drop_first(),
                ));
            },
        }
    }
}

} // verus!
