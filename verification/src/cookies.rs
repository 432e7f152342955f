use vstd::prelude::*;

use crate::kv::{assoc_find, assoc_get, assoc_index, assoc_remove, lemma_assoc_index};
use crate::views::{lemma_vec_deep_view_index, lemma_vec_deep_view_len};

verus! {

broadcast use lemma_vec_deep_view_index, lemma_vec_deep_view_len;

/// One stored cookie with the attributes the store keeps for it.
#[derive(Clone, Debug, Default)]
pub struct Cookie {
    pub name: String,
    pub value: String,
    pub domain: String,
    pub path: String,
    pub expires: String,
    pub max_age: String,
    pub raw: String,
    pub http_only: bool,
    pub secure: bool,
}

/// Mathematical image of a [`Cookie`].
#[verifier::ext_equal]
pub struct CookieImage {
    pub name: Seq<char>,
    pub value: Seq<char>,
    pub domain: Seq<char>,
    pub path: Seq<char>,
    pub expires: Seq<char>,
    pub max_age: Seq<char>,
    pub raw: Seq<char>,
    pub http_only: bool,
    pub secure: bool,
}

impl DeepView for Cookie {
    type V = CookieImage;

    open spec fn deep_view(&self) -> CookieImage {
        CookieImage {
            name: self.name.deep_view(),
            value: self.value.deep_view(),
            domain: self.domain.deep_view(),
            path: self.path.deep_view(),
            expires: self.expires.deep_view(),
            max_age: self.max_age.deep_view(),
            raw: self.raw.deep_view(),
            http_only: self.http_only,
            secure: self.secure,
        }
    }
}

impl Cookie {
    /// An exact copy, made field by field.
    pub fn deep_copy(&self) -> (r: Cookie)
        ensures
            r.deep_view() == self.deep_view(),
    {
        Cookie {
            name: self.name.clone(),
            value: self.value.clone(),
            domain: self.domain.clone(),
            path: self.path.clone(),
            expires: self.expires.clone(),
            max_age: self.max_age.clone(),
            raw: self.raw.clone(),
            http_only: self.http_only,
            secure: self.secure,
        }
    }
}

/// The position of the first cookie with this path and name, if any.
pub open spec fn cookie_index(cs: Seq<CookieImage>, path: Seq<char>, name: Seq<char>) -> Option<
    int,
>
    decreases cs.len(),
{
    if cs.len() == 0 {
        None
    } else if cs[0].path == path && cs[0].name == name {
        Some(0)
    } else {
        match cookie_index(cs.drop_first(), path, name) {
            None => None,
            Some(j) => Some(j + 1),
        }
    }
}

/// What [`cookie_index`] finds is the first cookie under that key.
pub proof fn lemma_cookie_index(cs: Seq<CookieImage>, path: Seq<char>, name: Seq<char>)
    ensures
        match cookie_index(cs, path, name) {
            None => forall|i: int| 0 <= i < cs.len() ==> !((#[trigger] cs[i]).path == path
                && cs[i].name == name),
            Some(j) => 0 <= j < cs.len() && cs[j].path == path && cs[j].name == name && forall|
                i: int,
            | 0 <= i < j ==> !((#[trigger] cs[i]).path == path && cs[i].name == name),
        },
    decreases cs.len(),
{
    if cs.len() > 0 {
        let t = cs.drop_first();
        lemma_cookie_index(t, path, name);
        assert(forall|i: int| 0 <= i < t.len() ==> t[i] == cs[i + 1]);
        if !(cs[0].path == path && cs[0].name == name) {
            match cookie_index(t, path, name) {
                None => {
                    assert forall|i: int| 0 <= i < cs.len() implies !((#[trigger] cs[i]).path
                        == path && cs[i].name == name) by {
                        if i > 0 {
                            assert(t[i - 1] == cs[i]);
                        }
                    }
                },
                Some(j) => {
                    assert(t[j] == cs[j + 1]);
                    assert forall|i: int| 0 <= i < j + 1 implies !((#[trigger] cs[i]).path == path
                        && cs[i].name == name) by {
                        if i > 0 {
                            assert(t[i - 1] == cs[i]);
                        }
                    }
                },
            }
        }
    }
}

/// The position of the first cookie with this name, whatever its path.
pub open spec fn cookie_name_index(cs: Seq<CookieImage>, name: Seq<char>) -> Option<int>
    decreases cs.len(),
{
    if cs.len() == 0 {
        None
    } else if cs[0].name == name {
        Some(0)
    } else {
        match cookie_name_index(cs.drop_first(), name) {
            None => None,
            Some(j) => Some(j + 1),
        }
    }
}

/// What [`cookie_name_index`] finds is the first cookie of that name.
pub proof fn lemma_cookie_name_index(cs: Seq<CookieImage>, name: Seq<char>)
    ensures
        match cookie_name_index(cs, name) {
            None => forall|i: int| 0 <= i < cs.len() ==> (#[trigger] cs[i]).name != name,
            Some(j) => 0 <= j < cs.len() && cs[j].name == name && forall|i: int|
                0 <= i < j ==> (#[trigger] cs[i]).name != name,
        },
    decreases cs.len(),
{
    if cs.len() > 0 {
        let t = cs.drop_first();
        lemma_cookie_name_index(t, name);
        assert(forall|i: int| 0 <= i < t.len() ==> t[i] == cs[i + 1]);
        if cs[0].name != name {
            match cookie_name_index(t, name) {
                None => {
                    assert forall|i: int| 0 <= i < cs.len() implies (#[trigger] cs[i]).name
                        != name by {
                        if i > 0 {
                            assert(t[i - 1] == cs[i]);
                        }
                    }
                },
                Some(j) => {
                    assert(t[j] == cs[j + 1]);
                    assert forall|i: int| 0 <= i < j + 1 implies (#[trigger] cs[i]).name != name by {
                        if i > 0 {
                            assert(t[i - 1] == cs[i]);
                        }
                    }
                },
            }
        }
    }
}

/// Finds the first cookie with this path and name.
fn find_cookie_at(cs: &Vec<Cookie>, path: &String, name: &String) -> (r: Option<usize>)
    ensures
        match r {
            Some(j) => j < cs@.len() && cookie_index(cs.deep_view(), path@, name@) == Some(
                j as int,
            ),
            None => cookie_index(cs.deep_view(), path@, name@) is None,
        },
{
    proof {
        lemma_cookie_index(cs.deep_view(), path@, name@);
    }
    let mut i: usize = 0;
    while i < cs.len()
        invariant
            i <= cs@.len(),
            forall|k: int| 0 <= k < i ==> !((#[trigger] cs.deep_view()[k]).path == path@
                && cs.deep_view()[k].name == name@),
        decreases cs@.len() - i,
    {
        proof {
            lemma_vec_deep_view_index(*cs, i as int);
        }
        if cs[i].path == *path && cs[i].name == *name {
            proof {
                lemma_cookie_index(cs.deep_view(), path@, name@);
            }
            return Some(i);
        }
        i = i + 1;
    }
    None
}

/// Finds the first cookie with this name.
fn find_cookie_by_name(cs: &Vec<Cookie>, name: &String) -> (r: Option<usize>)
    ensures
        match r {
            Some(j) => j < cs@.len() && cookie_name_index(cs.deep_view(), name@) == Some(j as int),
            None => cookie_name_index(cs.deep_view(), name@) is None,
        },
{
    proof {
        lemma_cookie_name_index(cs.deep_view(), name@);
    }
    let mut i: usize = 0;
    while i < cs.len()
        invariant
            i <= cs@.len(),
            forall|k: int| 0 <= k < i ==> (#[trigger] cs.deep_view()[k]).name != name@,
        decreases cs@.len() - i,
    {
        proof {
            lemma_vec_deep_view_index(*cs, i as int);
        }
        if cs[i].name == *name {
            proof {
                lemma_cookie_name_index(cs.deep_view(), name@);
            }
            return Some(i);
        }
        i = i + 1;
    }
    None
}

/// Copies a cookie row table element by element.
pub fn clone_cookies(cs: &Vec<Cookie>) -> (r: Vec<Cookie>)
    ensures
        r.deep_view() == cs.deep_view(),
{
    let mut r: Vec<Cookie> = Vec::new();
    let mut i: usize = 0;
    while i < cs.len()
        invariant
            i <= cs@.len(),
            r@.len() == i,
            forall|k: int| 0 <= k < i ==> #[trigger] r.deep_view()[k] == cs.deep_view()[k],
        decreases cs@.len() - i,
    {
        let c = cs[i].deep_copy();
        let ghost r0 = r;
        r.push(c);
        proof {
            assert forall|k: int| 0 <= k < i + 1 implies #[trigger] r.deep_view()[k]
                == cs.deep_view()[k] by {
                lemma_vec_deep_view_index(r, k);
                lemma_vec_deep_view_index(*cs, k);
                if k < i {
                    lemma_vec_deep_view_index(r0, k);
                }
            }
        }
        i = i + 1;
    }
    proof {
        assert(r.deep_view() =~= cs.deep_view());
    }
    r
}


/// Position of the first separator in a URL remainder: the length when none
/// occurs.
pub open spec fn first_slash(s: Seq<char>) -> int
    decreases s.len(),
{
    if s.len() == 0 {
        0
    } else if s[0] == '/' {
        0
    } else {
        1 + first_slash(s.drop_first())
    }
}

/// Where [`first_slash`] points: in range, at a separator when one exists,
/// with none before it.
pub proof fn lemma_first_slash(s: Seq<char>)
    ensures
        0 <= first_slash(s) <= s.len(),
        first_slash(s) < s.len() ==> s[first_slash(s)] == '/',
        forall|i: int| 0 <= i < first_slash(s) ==> s[i] != '/',
    decreases s.len(),
{
    if s.len() > 0 && s[0] != '/' {
        let t = s.drop_first();
        lemma_first_slash(t);
        assert(forall|i: int| 0 <= i < t.len() ==> t[i] == s[i + 1]);
        assert forall|i: int| 0 <= i < first_slash(s) implies s[i] != '/' by {
            if i > 0 {
                assert(t[i - 1] == s[i]);
            }
        }
    }
}

/// The scheme prefixes recognized when reading a URL.
pub open spec fn http_scheme() -> Seq<char> {
    seq!['h', 't', 't', 'p', ':', '/', '/']
}

/// As [`http_scheme`], for the encrypted variant.
pub open spec fn https_scheme() -> Seq<char> {
    seq!['h', 't', 't', 'p', 's', ':', '/', '/']
}

/// A URL with a leading scheme stripped.
pub open spec fn strip_scheme(u: Seq<char>) -> Seq<char> {
    if u.len() >= 8 && u.subrange(0, 8) == https_scheme() {
        u.subrange(8, u.len() as int)
    } else if u.len() >= 7 && u.subrange(0, 7) == http_scheme() {
        u.subrange(7, u.len() as int)
    } else {
        u
    }
}

/// The host part of a URL: after the scheme, up to the first separator.
pub open spec fn url_host(u: Seq<char>) -> Seq<char> {
    let s = strip_scheme(u);
    s.subrange(0, first_slash(s))
}

/// The path part of a URL: from the first separator after the host to the
/// end, a bare separator when the URL carries none.
pub open spec fn url_path(u: Seq<char>) -> Seq<char> {
    let s = strip_scheme(u);
    if first_slash(s) < s.len() {
        s.subrange(first_slash(s), s.len() as int)
    } else {
        seq!['/']
    }
}

/// Whether `p` is a leading piece of `q`.
pub open spec fn is_prefix(p: Seq<char>, q: Seq<char>) -> bool {
    p.len() <= q.len() && q.subrange(0, p.len() as int) == p
}

/// Whether a stored cookie applies to a URL: its domain is the URL's host
/// and its path is a leading piece of the URL's path.
pub open spec fn cookie_applies(c: CookieImage, host: Seq<char>, upath: Seq<char>) -> bool {
    c.domain == host && is_prefix(c.path, upath)
}

/// The name-keyed mapping of a domain row's cookies that apply to a URL
/// path, a later stored cookie overriding an earlier one of the same name.
pub open spec fn url_cookie_map(cs: Seq<CookieImage>, host: Seq<char>, upath: Seq<char>) -> Seq<
    (Seq<char>, CookieImage),
>
    decreases cs.len(),
{
    if cs.len() == 0 {
        Seq::empty()
    } else {
        let m = url_cookie_map(cs.drop_last(), host, upath);
        if cookie_applies(cs.last(), host, upath) {
            crate::kv::assoc_upsert(m, cs.last().name, cs.last())
        } else {
            m
        }
    }
}

/// Splits a URL into its host and its path, stripping a recognized scheme.
pub fn url_host_path(url: &String) -> (r: (String, String))
    ensures
        r.0@ == url_host(url@),
        r.1@ == url_path(url@),
{
    let n = url.as_str().unicode_len();
    let stripped: &str = if n >= 8 {
        let head = url.as_str().substring_char(0, 8);
        if String::from_str(head) == String::from_str("https://") {
            proof {
                reveal_strlit("https://");
                assert("https://"@ =~= https_scheme());
            }
            url.as_str().substring_char(8, n)
        } else {
            let head7 = url.as_str().substring_char(0, 7);
            if String::from_str(head7) == String::from_str("http://") {
                proof {
                    reveal_strlit("http://");
                    reveal_strlit("https://");
                    assert("http://"@ =~= http_scheme());
                    assert("https://"@ =~= https_scheme());
                }
                url.as_str().substring_char(7, n)
            } else {
                proof {
                    reveal_strlit("http://");
                    reveal_strlit("https://");
                    assert("http://"@ =~= http_scheme());
                    assert("https://"@ =~= https_scheme());
                }
                url.as_str()
            }
        }
    } else if n >= 7 {
        let head7 = url.as_str().substring_char(0, 7);
        if String::from_str(head7) == String::from_str("http://") {
            proof {
                reveal_strlit("http://");
                assert("http://"@ =~= http_scheme());
            }
            url.as_str().substring_char(7, n)
        } else {
            proof {
                reveal_strlit("http://");
                assert("http://"@ =~= http_scheme());
            }
            url.as_str()
        }
    } else {
        url.as_str()
    };
    proof {
        assert(stripped@ == strip_scheme(url@));
        lemma_first_slash(stripped@);
    }
    let m = stripped.unicode_len();
    let mut i: usize = 0;
    while i < m && stripped.get_char(i) != '/'
        invariant
            i <= m,
            m == stripped@.len(),
            forall|k: int| 0 <= k < i ==> stripped@[k] != '/',
        decreases m - i,
    {
        i = i + 1;
    }
    proof {
        lemma_first_slash(stripped@);
        if i < m {
            assert(first_slash(stripped@) == i as int) by {
                if first_slash(stripped@) < i {
                    assert(stripped@[first_slash(stripped@)] != '/');
                }
            }
        } else {
            assert(first_slash(stripped@) == m as int) by {
                if first_slash(stripped@) < m {
                    assert(stripped@[first_slash(stripped@)] != '/');
                }
            }
        }
    }
    let host = String::from_str(stripped.substring_char(0, i));
    let upath = if i < m {
        String::from_str(stripped.substring_char(i, m))
    } else {
        proof {
            reveal_strlit("/");
            assert("/"@ =~= seq!['/']);
        }
        String::from_str("/")
    };
    (host, upath)
}

/// The domain-keyed cookie store; the single cookie source both the editor
/// and the transport read.
#[derive(Clone, Debug, Default)]
pub struct CookiesManager {
    pub data: Vec<(String, Vec<Cookie>)>,
}

impl DeepView for CookiesManager {
    type V = Seq<(Seq<char>, Seq<CookieImage>)>;

    open spec fn deep_view(&self) -> Seq<(Seq<char>, Seq<CookieImage>)> {
        self.data.deep_view()
    }
}

/// The store after a cookie is added: keyed by its domain, then by its path
/// and name, a same-keyed cookie being overwritten.
pub open spec fn jar_add(s: Seq<(Seq<char>, Seq<CookieImage>)>, c: CookieImage) -> Seq<
    (Seq<char>, Seq<CookieImage>),
> {
    match assoc_index(s, c.domain) {
        None => s.push((c.domain, seq![c])),
        Some(j) => {
            let row = s[j].1;
            match cookie_index(row, c.path, c.name) {
                Some(p) => s.update(j, (c.domain, row.update(p, c))),
                None => s.update(j, (c.domain, row.push(c))),
            }
        },
    }
}

/// The store after a targeted update: the first cookie of that name in the
/// domain is replaced; a missing domain or name changes nothing.
pub open spec fn jar_update(
    s: Seq<(Seq<char>, Seq<CookieImage>)>,
    c: CookieImage,
    domain: Seq<char>,
    name: Seq<char>,
) -> Seq<(Seq<char>, Seq<CookieImage>)> {
    match assoc_index(s, domain) {
        None => s,
        Some(j) => {
            let row = s[j].1;
            match cookie_name_index(row, name) {
                Some(p) => s.update(j, (domain, row.update(p, c))),
                None => s,
            }
        },
    }
}

/// Whether the targeted update of [`jar_update`] finds its cookie.
pub open spec fn jar_update_hits(
    s: Seq<(Seq<char>, Seq<CookieImage>)>,
    domain: Seq<char>,
    name: Seq<char>,
) -> bool {
    match assoc_index(s, domain) {
        None => false,
        Some(j) => cookie_name_index(s[j].1, name) is Some,
    }
}

/// The store after one cookie is removed by domain, path and name.
pub open spec fn jar_remove_one(
    s: Seq<(Seq<char>, Seq<CookieImage>)>,
    domain: Seq<char>,
    path: Seq<char>,
    name: Seq<char>,
) -> Seq<(Seq<char>, Seq<CookieImage>)> {
    match assoc_index(s, domain) {
        None => s,
        Some(j) => {
            let row = s[j].1;
            match cookie_index(row, path, name) {
                Some(p) => s.update(j, (domain, row.remove(p))),
                None => s,
            }
        },
    }
}


impl CookiesManager {
    /// An empty store.
    pub fn new() -> (r: CookiesManager)
        ensures
            r.deep_view() == Seq::<(Seq<char>, Seq<CookieImage>)>::empty(),
    {
        let r = CookiesManager { data: Vec::new() };
        assert(r.deep_view() =~= Seq::<(Seq<char>, Seq<CookieImage>)>::empty());
        r
    }

    /// Whether any cookie is stored for this domain.
    pub fn contain_domain(&self, domain: String) -> (r: bool)
        ensures
            r == (assoc_index(self.deep_view(), domain@) is Some),
    {
        assoc_find(&self.data, &domain).is_some()
    }

    /// Whether the domain stores a cookie of this name.
    pub fn contain_domain_key(&self, domain: String, key: String) -> (r: bool)
        ensures
            r == jar_update_hits(self.deep_view(), domain@, key@),
    {
        match assoc_find(&self.data, &domain) {
            None => false,
            Some(j) => {
                proof {
                    lemma_vec_deep_view_index(self.data, j as int);
                }
                find_cookie_by_name(&self.data[j].1, &key).is_some()
            },
        }
    }

    /// Stores a cookie under its domain, path and name, overwriting any
    /// cookie already stored under that key; always succeeds.
    pub fn add_domain_cookies(&mut self, cookie: Cookie) -> (r: Result<(), String>)
        ensures
            r is Ok,
            final(self).deep_view() == jar_add(old(self).deep_view(), cookie.deep_view()),
    {
        let ghost self0 = *self;
        let ghost cv = cookie.deep_view();
        match assoc_find(&self.data, &cookie.domain) {
            None => {
                let domain = cookie.domain.clone();
                let mut row: Vec<Cookie> = Vec::new();
                row.push(cookie);
                proof {
                    assert(row.deep_view() =~= seq![cv]);
                }
                let ghost rowv = row.deep_view();
                self.data.push((domain, row));
                proof {
                    assert forall|k: int| 0 <= k < self.data@.len() implies #[trigger] self
                        .data
                        .deep_view()[k] == self0.data.deep_view().push((cv.domain, rowv))[k] by {
                        lemma_vec_deep_view_index(self.data, k);
                        if k < self0.data@.len() {
                            lemma_vec_deep_view_index(self0.data, k);
                        }
                    }
                    assert(self.deep_view() =~= self0.deep_view().push((cv.domain, rowv)));
                    assert(self.deep_view() =~= jar_add(self0.deep_view(), cv));
                }
                Ok(())
            },
            Some(j) => {
                proof {
                    lemma_vec_deep_view_index(self.data, j as int);
                }
                let ghost row0 = self.data@[j as int].1.deep_view();
                let entry = &mut self.data[j];
                let domain = cookie.domain.clone();
                let ghost rowx = entry.1.deep_view();
                match find_cookie_at(&entry.1, &cookie.path, &cookie.name) {
                    Some(p) => {
                        let ghost e0 = entry.1;
                        entry.1.set(p, cookie);
                        entry.0 = domain;
                        proof {
                            assert forall|k: int| 0 <= k < entry.1@.len() implies #[trigger] entry
                                .1
                                .deep_view()[k] == e0.deep_view().update(p as int, cv)[k] by {
                                lemma_vec_deep_view_index(entry.1, k);
                                lemma_vec_deep_view_index(e0, k);
                            }
                            assert(entry.1.deep_view() =~= e0.deep_view().update(p as int, cv));
                        }
                    },
                    None => {
                        let ghost e0 = entry.1;
                        entry.1.push(cookie);
                        entry.0 = domain;
                        proof {
                            assert forall|k: int| 0 <= k < entry.1@.len() implies #[trigger] entry
                                .1
                                .deep_view()[k] == e0.deep_view().push(cv)[k] by {
                                lemma_vec_deep_view_index(entry.1, k);
                                if k < e0@.len() {
                                    lemma_vec_deep_view_index(e0, k);
                                }
                            }
                            assert(entry.1.deep_view() =~= e0.deep_view().push(cv));
                        }
                    },
                }
                proof {
                    assert forall|k: int| 0 <= k < self.data@.len() implies #[trigger] self
                        .data
                        .deep_view()[k] == self0.data.deep_view().update(
                        j as int,
                        self.data@[j as int].deep_view(),
                    )[k] by {
                        lemma_vec_deep_view_index(self.data, k);
                        lemma_vec_deep_view_index(self0.data, k);
                    }
                    assert(self.deep_view() =~= self0.deep_view().update(
                        j as int,
                        self.data@[j as int].deep_view(),
                    ));
                    assert(self.deep_view() =~= jar_add(self0.deep_view(), cv));
                }
                Ok(())
            },
        }
    }

    /// Replaces the first cookie called `name` in `domain` with `cookie`; a
    /// missing domain or name is reported as a failure and leaves the store
    /// unchanged.
    pub fn update_domain_cookies(&mut self, cookie: Cookie, domain: String, name: String) -> (r:
        Result<(), String>)
        ensures
            r is Ok <==> jar_update_hits(old(self).deep_view(), domain@, name@),
            final(self).deep_view() == jar_update(
                old(self).deep_view(),
                cookie.deep_view(),
                domain@,
                name@,
            ),
    {
        let ghost self0 = *self;
        let ghost cv = cookie.deep_view();
        match assoc_find(&self.data, &domain) {
            None => Err(String::from_str("not found")),
            Some(j) => {
                proof {
                    lemma_vec_deep_view_index(self.data, j as int);
                }
                let entry = &mut self.data[j];
                match find_cookie_by_name(&entry.1, &name) {
                    None => {
                        proof {
                            assert(self.data@ =~= self0.data@);
                            assert(self.deep_view() =~= jar_update(
                                self0.deep_view(),
                                cv,
                                domain@,
                                name@,
                            ));
                        }
                        Err(String::from_str("not found"))
                    },
                    Some(p) => {
                        let ghost e0 = entry.1;
                        entry.1.set(p, cookie);
                        entry.0 = domain;
                        proof {
                            assert forall|k: int| 0 <= k < entry.1@.len() implies #[trigger] entry
                                .1
                                .deep_view()[k] == e0.deep_view().update(p as int, cv)[k] by {
                                lemma_vec_deep_view_index(entry.1, k);
                                lemma_vec_deep_view_index(e0, k);
                            }
                            assert(entry.1.deep_view() =~= e0.deep_view().update(p as int, cv));
                            assert forall|k: int| 0 <= k < self.data@.len() implies #[trigger] self
                                .data
                                .deep_view()[k] == self0.data.deep_view().update(
                                j as int,
                                self.data@[j as int].deep_view(),
                            )[k] by {
                                lemma_vec_deep_view_index(self.data, k);
                                lemma_vec_deep_view_index(self0.data, k);
                            }
                            assert(self.deep_view() =~= self0.deep_view().update(
                                j as int,
                                self.data@[j as int].deep_view(),
                            ));
                            assert(self.deep_view() =~= jar_update(
                                self0.deep_view(),
                                cv,
                                domain@,
                                name@,
                            ));
                        }
                        Ok(())
                    },
                }
            },
        }
    }

    /// An exact copy of the whole store.
    pub fn deep_copy(&self) -> (r: CookiesManager)
        ensures
            r.deep_view() == self.deep_view(),
    {
        let mut data: Vec<(String, Vec<Cookie>)> = Vec::new();
        let mut i: usize = 0;
        while i < self.data.len()
            invariant
                i <= self.data@.len(),
                data@.len() == i,
                forall|k: int| 0 <= k < i ==> #[trigger] data.deep_view()[k]
                    == self.data.deep_view()[k],
            decreases self.data@.len() - i,
        {
            let domain = self.data[i].0.clone();
            let row = clone_cookies(&self.data[i].1);
            let ghost d0 = data;
            data.push((domain, row));
            proof {
                assert forall|k: int| 0 <= k < i + 1 implies #[trigger] data.deep_view()[k]
                    == self.data.deep_view()[k] by {
                    lemma_vec_deep_view_index(data, k);
                    lemma_vec_deep_view_index(self.data, k);
                    if k < i {
                        lemma_vec_deep_view_index(d0, k);
                    }
                }
            }
            i = i + 1;
        }
        let r = CookiesManager { data };
        proof {
            assert(r.deep_view() =~= self.deep_view());
        }
        r
    }

    /// The stored domains, in store order.
    pub fn get_cookie_domains(&self) -> (r: Vec<String>)
        ensures
            r.deep_view().len() == self.deep_view().len(),
            forall|i: int| 0 <= i < self.deep_view().len() ==> #[trigger] r.deep_view()[i]
                == self.deep_view()[i].0,
    {
        let mut r: Vec<String> = Vec::new();
        let mut i: usize = 0;
        while i < self.data.len()
            invariant
                i <= self.data@.len(),
                r@.len() == i,
                forall|k: int| 0 <= k < i ==> #[trigger] r.deep_view()[k]
                    == self.deep_view()[k].0,
            decreases self.data@.len() - i,
        {
            let name = self.data[i].0.clone();
            let ghost r0 = r;
            r.push(name);
            proof {
                assert forall|k: int| 0 <= k < i + 1 implies #[trigger] r.deep_view()[k]
                    == self.deep_view()[k].0 by {
                    lemma_vec_deep_view_index(r, k);
                    lemma_vec_deep_view_index(self.data, k);
                    if k < i {
                        lemma_vec_deep_view_index(r0, k);
                    }
                }
            }
            i = i + 1;
        }
        r
    }

    /// Point-in-time copies of one domain's cookies.
    pub fn get_domain_cookies(&self, domain: String) -> (r: Option<Vec<Cookie>>)
        ensures
            match r {
                Some(cs) => assoc_get(self.deep_view(), domain@) == Some(cs.deep_view()),
                None => assoc_get(self.deep_view(), domain@) is None,
            },
    {
        match assoc_find(&self.data, &domain) {
            None => None,
            Some(j) => {
                proof {
                    lemma_vec_deep_view_index(self.data, j as int);
                }
                Some(clone_cookies(&self.data[j].1))
            },
        }
    }

    /// Drops every cookie of a domain; unknown domains are a no-op.
    pub fn remove_domain(&mut self, domain: String)
        ensures
            final(self).deep_view() == assoc_remove(old(self).deep_view(), domain@),
    {
        let ghost self0 = *self;
        match assoc_find(&self.data, &domain) {
            Some(j) => {
                self.data.remove(j);
                proof {
                    assert forall|k: int| 0 <= k < self.data@.len() implies #[trigger] self
                        .data
                        .deep_view()[k] == self0.data.deep_view().remove(j as int)[k] by {
                        lemma_vec_deep_view_index(self.data, k);
                        lemma_vec_deep_view_index(self0.data, k);
                        if k >= j {
                            lemma_vec_deep_view_index(self0.data, k + 1);
                        }
                    }
                    assert(self.deep_view() =~= self0.deep_view().remove(j as int));
                }
            },
            None => {},
        }
    }

    /// Drops one cookie by domain, path and name; a miss is a no-op.
    pub fn remove_domain_path_name(&mut self, domain: String, path: String, name: String)
        ensures
            final(self).deep_view() == jar_remove_one(old(self).deep_view(), domain@, path@, name@),
    {
        let ghost self0 = *self;
        match assoc_find(&self.data, &domain) {
            None => {},
            Some(j) => {
                proof {
                    lemma_vec_deep_view_index(self.data, j as int);
                }
                let entry = &mut self.data[j];
                match find_cookie_at(&entry.1, &path, &name) {
                    None => {
                        proof {
                            assert(self.data@ =~= self0.data@);
                        }
                    },
                    Some(p) => {
                        let ghost e0 = entry.1;
                        entry.1.remove(p);
                        entry.0 = domain;
                        proof {
                            assert forall|k: int| 0 <= k < entry.1@.len() implies #[trigger] entry
                                .1
                                .deep_view()[k] == e0.deep_view().remove(p as int)[k] by {
                                lemma_vec_deep_view_index(entry.1, k);
                                lemma_vec_deep_view_index(e0, k);
                                if k >= p {
                                    lemma_vec_deep_view_index(e0, k + 1);
                                }
                            }
                            assert(entry.1.deep_view() =~= e0.deep_view().remove(p as int));
                            assert forall|k: int| 0 <= k < self.data@.len() implies #[trigger] self
                                .data
                                .deep_view()[k] == self0.data.deep_view().update(
                                j as int,
                                self.data@[j as int].deep_view(),
                            )[k] by {
                                lemma_vec_deep_view_index(self.data, k);
                                lemma_vec_deep_view_index(self0.data, k);
                            }
                            assert(self.deep_view() =~= self0.deep_view().update(
                                j as int,
                                self.data@[j as int].deep_view(),
                            ));
                            assert(self.deep_view() =~= jar_remove_one(
                                self0.deep_view(),
                                domain@,
                                path@,
                                name@,
                            ));
                        }
                    },
                }
            },
        }
    }

    /// The name-keyed cookies applicable to a URL: those of the URL's host
    /// whose path is a leading piece of the URL's path, a later stored
    /// cookie overriding an earlier one of the same name.
    pub fn get_url_cookies(&self, url: String) -> (r: Vec<(String, Cookie)>)
        ensures
            ({
                let host = url_host(url@);
                let upath = url_path(url@);
                match assoc_index(self.deep_view(), host) {
                    None => r.deep_view() == Seq::<(Seq<char>, CookieImage)>::empty(),
                    Some(j) => r.deep_view() == url_cookie_map(
                        self.deep_view()[j].1,
                        host,
                        upath,
                    ),
                }
            }),
    {
        let (host, upath) = url_host_path(&url);
        match assoc_find(&self.data, &host) {
            None => {
                let r: Vec<(String, Cookie)> = Vec::new();
                proof {
                    assert(r.deep_view() =~= Seq::<(Seq<char>, CookieImage)>::empty());
                }
                r
            },
            Some(j) => {
                proof {
                    lemma_vec_deep_view_index(self.data, j as int);
                }
                let row = &self.data[j].1;
                let ghost rowv = row.deep_view();
                let mut r: Vec<(String, Cookie)> = Vec::new();
                let mut i: usize = 0;
                proof {
                    assert(rowv.subrange(0, 0) =~= Seq::<CookieImage>::empty());
                    assert(r.deep_view() =~= url_cookie_map(rowv.subrange(0, 0), host@, upath@));
                }
                while i < row.len()
                    invariant
                        i <= row@.len(),
                        rowv == row.deep_view(),
                        host@ == url_host(url@),
                        upath@ == url_path(url@),
                        r.deep_view() == url_cookie_map(
                            rowv.subrange(0, i as int),
                            host@,
                            upath@,
                        ),
                    decreases row@.len() - i,
                {
                    let ghost pre = rowv.subrange(0, i as int);
                    let ghost cur = rowv.subrange(0, i as int + 1);
                    proof {
                        assert(cur.drop_last() =~= pre);
                        assert(cur.last() == rowv[i as int]);
                        lemma_vec_deep_view_index(*row, i as int);
                    }
                    let applies = row[i].domain == host && path_is_prefix(&row[i].path, &upath);
                    if applies {
                        let c = row[i].deep_copy();
                        let key = c.name.clone();
                        let ghost kvp = (key@, c.deep_view());
                        let ghost r0 = r;
                        match assoc_find(&r, &key) {
                            Some(p) => {
                                r.set(p, (key, c));
                                proof {
                                    assert forall|k: int| 0 <= k < r@.len() implies #[trigger] r
                                        .deep_view()[k] == r0.deep_view().update(p as int, kvp)[k]
                                        by {
                                        lemma_vec_deep_view_index(r, k);
                                        lemma_vec_deep_view_index(r0, k);
                                    }
                                    assert(r.deep_view() =~= r0.deep_view().update(p as int, kvp));
                                    assert(r.deep_view() =~= url_cookie_map(cur, host@, upath@));
                                }
                            },
                            None => {
                                r.push((key, c));
                                proof {
                                    assert forall|k: int| 0 <= k < r@.len() implies #[trigger] r
                                        .deep_view()[k] == r0.deep_view().push(kvp)[k] by {
                                        lemma_vec_deep_view_index(r, k);
                                        if k < r0@.len() {
                                            lemma_vec_deep_view_index(r0, k);
                                        }
                                    }
                                    assert(r.deep_view() =~= r0.deep_view().push(kvp));
                                    assert(r.deep_view() =~= url_cookie_map(cur, host@, upath@));
                                }
                            },
                        }
                    } else {
                        proof {
                            assert(r.deep_view() =~= url_cookie_map(cur, host@, upath@));
                        }
                    }
                    i = i + 1;
                }
                proof {
                    assert(rowv.subrange(0, row@.len() as int) =~= rowv);
                }
                r
            },
        }
    }
}

/// Whether `p` is a leading piece of `q`, by characters.
pub fn path_is_prefix(p: &String, q: &String) -> (r: bool)
    ensures
        r == is_prefix(p@, q@),
{
    let pn = p.as_str().unicode_len();
    let qn = q.as_str().unicode_len();
    if pn > qn {
        return false;
    }
    let mut i: usize = 0;
    while i < pn
        invariant
            i <= pn <= qn,
            pn == p@.len(),
            qn == q@.len(),
            forall|k: int| 0 <= k < i ==> p@[k] == q@[k],
        decreases pn - i,
    {
        if p.as_str().get_char(i) != q.as_str().get_char(i) {
            proof {
                assert(q@.subrange(0, p@.len() as int)[i as int] != p@[i as int]);
            }
            return false;
        }
        i = i + 1;
    }
    proof {
        assert(q@.subrange(0, p@.len() as int) =~= p@);
    }
    true
}

} // verus!
