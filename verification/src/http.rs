use vstd::prelude::*;

use crate::auth::{Auth, AuthImage};
use crate::views::{bytes_copy, bytes_same, lemma_vec_deep_view_index, lemma_vec_deep_view_len};

verus! {

broadcast use lemma_vec_deep_view_index, lemma_vec_deep_view_len;

/// HTTP request method.
#[derive(Clone, Copy, Debug, PartialEq, Eq, Structural)]
pub enum Method {
    Post,
    Get,
    Put,
    Patch,
    Delete,
    Copy,
    Head,
    Options,
}

impl Method {
    /// The upper-case text of the method, as it is shown and sent.
    pub fn text(&self) -> (r: String)
        ensures
            *self == Method::Post ==> r@ == "POST"@,
            *self == Method::Get ==> r@ == "GET"@,
            *self == Method::Put ==> r@ == "PUT"@,
            *self == Method::Patch ==> r@ == "PATCH"@,
            *self == Method::Delete ==> r@ == "DELETE"@,
            *self == Method::Copy ==> r@ == "COPY"@,
            *self == Method::Head ==> r@ == "HEAD"@,
            *self == Method::Options ==> r@ == "OPTIONS"@,
    {
        match self {
            Method::Post => String::from_str("POST"),
            Method::Get => String::from_str("GET"),
            Method::Put => String::from_str("PUT"),
            Method::Patch => String::from_str("PATCH"),
            Method::Delete => String::from_str("DELETE"),
            Method::Copy => String::from_str("COPY"),
            Method::Head => String::from_str("HEAD"),
            Method::Options => String::from_str("OPTIONS"),
        }
    }

    /// Every method, in the order the editor offers them.
    pub fn all() -> (r: Vec<Method>)
        ensures
            r.deep_view() == seq![
                Method::Post,
                Method::Get,
                Method::Put,
                Method::Patch,
                Method::Delete,
                Method::Copy,
                Method::Head,
                Method::Options,
            ],
    {
        let mut v: Vec<Method> = Vec::new();
        v.push(Method::Post);
        v.push(Method::Get);
        v.push(Method::Put);
        v.push(Method::Patch);
        v.push(Method::Delete);
        v.push(Method::Copy);
        v.push(Method::Head);
        v.push(Method::Options);
        assert(v.deep_view() =~= seq![
            Method::Post,
            Method::Get,
            Method::Put,
            Method::Patch,
            Method::Delete,
            Method::Copy,
            Method::Head,
            Method::Options,
        ]);
        v
    }
}

impl DeepView for Method {
    type V = Method;

    open spec fn deep_view(&self) -> Method {
        *self
    }
}

/// One key/value row of a request's query-parameter table.
#[derive(Clone, Debug, Default)]
pub struct QueryParam {
    pub key: String,
    pub value: String,
    pub desc: String,
    pub enable: bool,
}

/// One key/value row of a request's or response's header table.
#[derive(Clone, Debug, Default)]
pub struct Header {
    pub key: String,
    pub value: String,
    pub desc: String,
    pub enable: bool,
}

/// Mathematical image shared by [`QueryParam`] and [`Header`] rows.
#[verifier::ext_equal]
pub struct RowImage {
    pub key: Seq<char>,
    pub value: Seq<char>,
    pub desc: Seq<char>,
    pub enable: bool,
}

impl DeepView for QueryParam {
    type V = RowImage;

    open spec fn deep_view(&self) -> RowImage {
        RowImage {
            key: self.key.deep_view(),
            value: self.value.deep_view(),
            desc: self.desc.deep_view(),
            enable: self.enable,
        }
    }
}

impl DeepView for Header {
    type V = RowImage;

    open spec fn deep_view(&self) -> RowImage {
        RowImage {
            key: self.key.deep_view(),
            value: self.value.deep_view(),
            desc: self.desc.deep_view(),
            enable: self.enable,
        }
    }
}

impl QueryParam {
    /// An exact copy, made field by field.
    pub fn deep_copy(&self) -> (r: QueryParam)
        ensures
            r.deep_view() == self.deep_view(),
    {
        QueryParam {
            key: self.key.clone(),
            value: self.value.clone(),
            desc: self.desc.clone(),
            enable: self.enable,
        }
    }

    /// Structural comparison of every field.
    pub fn same_as(&self, other: &QueryParam) -> (r: bool)
        ensures
            r == (self.deep_view() == other.deep_view()),
    {
        let r = self.key == other.key && self.value == other.value && self.desc == other.desc
            && self.enable == other.enable;
        if r {
            assert(self.deep_view() =~= other.deep_view());
        }
        r
    }
}

impl Header {
    /// An exact copy, made field by field.
    pub fn deep_copy(&self) -> (r: Header)
        ensures
            r.deep_view() == self.deep_view(),
    {
        Header {
            key: self.key.clone(),
            value: self.value.clone(),
            desc: self.desc.clone(),
            enable: self.enable,
        }
    }

    /// Structural comparison of every field.
    pub fn same_as(&self, other: &Header) -> (r: bool)
        ensures
            r == (self.deep_view() == other.deep_view()),
    {
        let r = self.key == other.key && self.value == other.value && self.desc == other.desc
            && self.enable == other.enable;
        if r {
            assert(self.deep_view() =~= other.deep_view());
        }
        r
    }

    /// Turns plain `(key, value)` pairs, as a transport layer reports response
    /// headers, into enabled header rows with empty descriptions.
    pub fn new_from_tuple(pairs: Vec<(String, String)>) -> (r: Vec<Header>)
        ensures
            r.deep_view().len() == pairs.deep_view().len(),
            forall|i: int| 0 <= i < pairs.deep_view().len() ==> (#[trigger] r.deep_view()[i])
                == header_row_of(pairs.deep_view()[i]),
    {
        let mut r: Vec<Header> = Vec::new();
        let mut i: usize = 0;
        while i < pairs.len()
            invariant
                i <= pairs.len(),
                r.deep_view().len() == i,
                forall|j: int| 0 <= j < i ==> (#[trigger] r.deep_view()[j])
                    == header_row_of(pairs.deep_view()[j]),
            decreases pairs.len() - i,
        {
            let h = Header {
                key: pairs[i].0.clone(),
                value: pairs[i].1.clone(),
                desc: String::new(),
                enable: true,
            };
            let ghost r0 = r;
            r.push(h);
            proof {
                assert forall|j: int| 0 <= j < i + 1 implies (#[trigger] r.deep_view()[j])
                    == header_row_of(pairs.deep_view()[j]) by {
                    lemma_vec_deep_view_index(r, j);
                    lemma_vec_deep_view_index(pairs, j);
                    if j < i {
                        lemma_vec_deep_view_index(r0, j);
                        assert(r0.deep_view()[j] == header_row_of(pairs.deep_view()[j]));
                    } else {
                        assert(r@[j] == h);
                    }
                }
            }
            i = i + 1;
        }
        r
    }
}

/// The header row that [`Header::new_from_tuple`] builds from one reported
/// `(key, value)` pair.
pub open spec fn header_row_of(pair: (Seq<char>, Seq<char>)) -> RowImage {
    RowImage { key: pair.0, value: pair.1, desc: Seq::empty(), enable: true }
}

/// Compares two query-parameter tables row by row.
pub fn params_same(a: &Vec<QueryParam>, b: &Vec<QueryParam>) -> (r: bool)
    ensures
        r == (a.deep_view() == b.deep_view()),
{
    if a.len() != b.len() {
        assert(a.deep_view().len() != b.deep_view().len());
        return false;
    }
    let mut i: usize = 0;
    while i < a.len()
        invariant
            i <= a.len(),
            a.len() == b.len(),
            a.deep_view().len() == a.len(),
            b.deep_view().len() == b.len(),
            forall|j: int| 0 <= j < i ==> #[trigger] a.deep_view()[j] == b.deep_view()[j],
        decreases a.len() - i,
    {
        if !a[i].same_as(&b[i]) {
            assert(a.deep_view()[i as int] != b.deep_view()[i as int]);
            return false;
        }
        i = i + 1;
    }
    assert(a.deep_view() =~= b.deep_view());
    true
}

/// Compares two header tables row by row.
pub fn headers_same(a: &Vec<Header>, b: &Vec<Header>) -> (r: bool)
    ensures
        r == (a.deep_view() == b.deep_view()),
{
    if a.len() != b.len() {
        assert(a.deep_view().len() != b.deep_view().len());
        return false;
    }
    let mut i: usize = 0;
    while i < a.len()
        invariant
            i <= a.len(),
            a.len() == b.len(),
            a.deep_view().len() == a.len(),
            b.deep_view().len() == b.len(),
            forall|j: int| 0 <= j < i ==> #[trigger] a.deep_view()[j] == b.deep_view()[j],
        decreases a.len() - i,
    {
        if !a[i].same_as(&b[i]) {
            assert(a.deep_view()[i as int] != b.deep_view()[i as int]);
            return false;
        }
        i = i + 1;
    }
    assert(a.deep_view() =~= b.deep_view());
    true
}

/// Copies a query-parameter table row by row.
pub fn params_copy(a: &Vec<QueryParam>) -> (r: Vec<QueryParam>)
    ensures
        r.deep_view() == a.deep_view(),
{
    let mut r: Vec<QueryParam> = Vec::new();
    let mut i: usize = 0;
    while i < a.len()
        invariant
            i <= a.len(),
            r.deep_view().len() == i,
            forall|j: int| 0 <= j < i ==> #[trigger] r.deep_view()[j] == a.deep_view()[j],
        decreases a.len() - i,
    {
        let x = a[i].deep_copy();
        let ghost r0 = r;
        r.push(x);
        proof {
            assert forall|j: int| 0 <= j < i + 1 implies #[trigger] r.deep_view()[j]
                == a.deep_view()[j] by {
                lemma_vec_deep_view_index(r, j);
                lemma_vec_deep_view_index(*a, j);
                if j < i {
                    lemma_vec_deep_view_index(r0, j);
                }
            }
        }
        i = i + 1;
    }
    assert(r.deep_view() =~= a.deep_view());
    r
}

/// Copies a header table row by row.
pub fn headers_copy(a: &Vec<Header>) -> (r: Vec<Header>)
    ensures
        r.deep_view() == a.deep_view(),
{
    let mut r: Vec<Header> = Vec::new();
    let mut i: usize = 0;
    while i < a.len()
        invariant
            i <= a.len(),
            r.deep_view().len() == i,
            forall|j: int| 0 <= j < i ==> #[trigger] r.deep_view()[j] == a.deep_view()[j],
        decreases a.len() - i,
    {
        let x = a[i].deep_copy();
        let ghost r0 = r;
        r.push(x);
        proof {
            assert forall|j: int| 0 <= j < i + 1 implies #[trigger] r.deep_view()[j]
                == a.deep_view()[j] by {
                lemma_vec_deep_view_index(r, j);
                lemma_vec_deep_view_index(*a, j);
                if j < i {
                    lemma_vec_deep_view_index(r0, j);
                }
            }
        }
        i = i + 1;
    }
    assert(r.deep_view() =~= a.deep_view());
    r
}

/// An editable request: what the user composes and the sender consumes.
#[derive(Clone, Debug)]
pub struct Request {
    pub method: Method,
    pub base_url: String,
    pub params: Vec<QueryParam>,
    pub headers: Vec<Header>,
    pub body: Vec<u8>,
    pub auth: Auth,
}

/// Mathematical image of a [`Request`].
#[verifier::ext_equal]
pub struct RequestImage {
    pub method: Method,
    pub base_url: Seq<char>,
    pub params: Seq<RowImage>,
    pub headers: Seq<RowImage>,
    pub body: Seq<u8>,
    pub auth: AuthImage,
}

impl DeepView for Request {
    type V = RequestImage;

    open spec fn deep_view(&self) -> RequestImage {
        RequestImage {
            method: self.method,
            base_url: self.base_url.deep_view(),
            params: self.params.deep_view(),
            headers: self.headers.deep_view(),
            body: self.body.deep_view(),
            auth: self.auth.deep_view(),
        }
    }
}

impl Request {
    /// An exact copy, made field by field.
    pub fn deep_copy(&self) -> (r: Request)
        ensures
            r.deep_view() == self.deep_view(),
    {
        let r = Request {
            method: self.method,
            base_url: self.base_url.clone(),
            params: params_copy(&self.params),
            headers: headers_copy(&self.headers),
            body: bytes_copy(&self.body),
            auth: self.auth.deep_copy(),
        };
        assert(r.deep_view() =~= self.deep_view());
        r
    }

    /// Structural comparison of every field.
    pub fn same_as(&self, other: &Request) -> (r: bool)
        ensures
            r == (self.deep_view() == other.deep_view()),
    {
        if !(self.method == other.method) {
            assert(self.deep_view().method != other.deep_view().method);
            return false;
        }
        if !(self.base_url == other.base_url) {
            assert(self.deep_view().base_url != other.deep_view().base_url);
            return false;
        }
        if !params_same(&self.params, &other.params) {
            assert(self.deep_view().params != other.deep_view().params);
            return false;
        }
        if !headers_same(&self.headers, &other.headers) {
            assert(self.deep_view().headers != other.deep_view().headers);
            return false;
        }
        if !bytes_same(&self.body, &other.body) {
            assert(self.deep_view().body != other.deep_view().body);
            return false;
        }
        if !self.auth.same_as(&other.auth) {
            assert(self.deep_view().auth != other.deep_view().auth);
            return false;
        }
        assert(self.deep_view() =~= other.deep_view());
        true
    }
}

/// What came back from a send: status, headers and body as the transport
/// reported them.
#[derive(Clone, Debug)]
pub struct Response {
    pub ok: bool,
    pub status: u16,
    pub status_text: String,
    pub url: String,
    pub headers: Vec<Header>,
    pub body: Vec<u8>,
}

/// Mathematical image of a [`Response`].
#[verifier::ext_equal]
pub struct ResponseImage {
    pub ok: bool,
    pub status: u16,
    pub status_text: Seq<char>,
    pub url: Seq<char>,
    pub headers: Seq<RowImage>,
    pub body: Seq<u8>,
}

impl DeepView for Response {
    type V = ResponseImage;

    open spec fn deep_view(&self) -> ResponseImage {
        ResponseImage {
            ok: self.ok,
            status: self.status,
            status_text: self.status_text.deep_view(),
            url: self.url.deep_view(),
            headers: self.headers.deep_view(),
            body: self.body.deep_view(),
        }
    }
}

impl Response {
    /// The response a record carries before anything was sent.
    pub fn empty() -> (r: Response)
        ensures
            r.deep_view() == ResponseImage::empty(),
    {
        let r = Response {
            ok: false,
            status: 0,
            status_text: String::new(),
            url: String::new(),
            headers: Vec::new(),
            body: Vec::new(),
        };
        assert(r.deep_view() =~= ResponseImage::empty());
        r
    }

    /// An exact copy, made field by field.
    pub fn deep_copy(&self) -> (r: Response)
        ensures
            r.deep_view() == self.deep_view(),
    {
        let r = Response {
            ok: self.ok,
            status: self.status,
            status_text: self.status_text.clone(),
            url: self.url.clone(),
            headers: headers_copy(&self.headers),
            body: bytes_copy(&self.body),
        };
        assert(r.deep_view() =~= self.deep_view());
        r
    }

    /// Structural comparison of every field.
    pub fn same_as(&self, other: &Response) -> (r: bool)
        ensures
            r == (self.deep_view() == other.deep_view()),
    {
        if !(self.ok == other.ok && self.status == other.status) {
            return false;
        }
        if !(self.status_text == other.status_text) {
            assert(self.deep_view().status_text != other.deep_view().status_text);
            return false;
        }
        if !(self.url == other.url) {
            assert(self.deep_view().url != other.deep_view().url);
            return false;
        }
        if !headers_same(&self.headers, &other.headers) {
            assert(self.deep_view().headers != other.deep_view().headers);
            return false;
        }
        if !bytes_same(&self.body, &other.body) {
            assert(self.deep_view().body != other.deep_view().body);
            return false;
        }
        assert(self.deep_view() =~= other.deep_view());
        true
    }
}

impl ResponseImage {
    /// The image of the response a record carries before anything was sent.
    pub open spec fn empty() -> ResponseImage {
        ResponseImage {
            ok: false,
            status: 0,
            status_text: Seq::empty(),
            url: Seq::empty(),
            headers: Seq::empty(),
            body: Seq::empty(),
        }
    }
}

/// A named request together with its latest response and its own scripts: the
/// unit stored in folders, opened in tabs and appended to the history.
#[derive(Clone, Debug)]
pub struct HttpRecord {
    pub name: String,
    pub desc: String,
    pub pre_request_script: String,
    pub test_script: String,
    pub request: Request,
    pub response: Response,
}

/// Mathematical image of an [`HttpRecord`].
#[verifier::ext_equal]
pub struct RecordImage {
    pub name: Seq<char>,
    pub desc: Seq<char>,
    pub pre_request_script: Seq<char>,
    pub test_script: Seq<char>,
    pub request: RequestImage,
    pub response: ResponseImage,
}

impl DeepView for HttpRecord {
    type V = RecordImage;

    open spec fn deep_view(&self) -> RecordImage {
        RecordImage {
            name: self.name.deep_view(),
            desc: self.desc.deep_view(),
            pre_request_script: self.pre_request_script.deep_view(),
            test_script: self.test_script.deep_view(),
            request: self.request.deep_view(),
            response: self.response.deep_view(),
        }
    }
}

impl HttpRecord {
    /// An exact copy, made field by field.
    pub fn deep_copy(&self) -> (r: HttpRecord)
        ensures
            r.deep_view() == self.deep_view(),
    {
        let r = HttpRecord {
            name: self.name.clone(),
            desc: self.desc.clone(),
            pre_request_script: self.pre_request_script.clone(),
            test_script: self.test_script.clone(),
            request: self.request.deep_copy(),
            response: self.response.deep_copy(),
        };
        assert(r.deep_view() =~= self.deep_view());
        r
    }

    /// Structural comparison of every field; the equality that dirty tracking
    /// of open tabs rests on.
    pub fn same_as(&self, other: &HttpRecord) -> (r: bool)
        ensures
            r == (self.deep_view() == other.deep_view()),
    {
        if !(self.name == other.name) {
            assert(self.deep_view().name != other.deep_view().name);
            return false;
        }
        if !(self.desc == other.desc) {
            assert(self.deep_view().desc != other.deep_view().desc);
            return false;
        }
        if !(self.pre_request_script == other.pre_request_script) {
            assert(self.deep_view().pre_request_script != other.deep_view().pre_request_script);
            return false;
        }
        if !(self.test_script == other.test_script) {
            assert(self.deep_view().test_script != other.deep_view().test_script);
            return false;
        }
        if !self.request.same_as(&other.request) {
            assert(self.deep_view().request != other.deep_view().request);
            return false;
        }
        if !self.response.same_as(&other.response) {
            assert(self.deep_view().response != other.deep_view().response);
            return false;
        }
        assert(self.deep_view() =~= other.deep_view());
        true
    }
}

} // verus!
