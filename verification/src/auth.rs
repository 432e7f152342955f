use vstd::prelude::*;

verus! {

/// The kind of authentication attached to a folder or request.
#[derive(Clone, Copy, Debug, PartialEq, Eq, Structural)]
pub enum AuthType {
    NoAuth,
    BasicAuth,
    BearerToken,
}

/// Authentication data carried by a folder or a request: the kind plus the
/// credential fields, of which only the ones matching the kind are meaningful.
#[derive(Clone, Debug)]
pub struct Auth {
    pub auth_type: AuthType,
    pub basic_username: String,
    pub basic_password: String,
    pub bearer_token: String,
}

/// Mathematical image of an [`Auth`] value.
#[verifier::ext_equal]
pub struct AuthImage {
    pub auth_type: AuthType,
    pub basic_username: Seq<char>,
    pub basic_password: Seq<char>,
    pub bearer_token: Seq<char>,
}

impl DeepView for Auth {
    type V = AuthImage;

    open spec fn deep_view(&self) -> AuthImage {
        AuthImage {
            auth_type: self.auth_type,
            basic_username: self.basic_username.deep_view(),
            basic_password: self.basic_password.deep_view(),
            bearer_token: self.bearer_token.deep_view(),
        }
    }
}

impl AuthImage {
    /// The image of the auth value that carries no credentials at all.
    pub open spec fn no_auth() -> AuthImage {
        AuthImage {
            auth_type: AuthType::NoAuth,
            basic_username: Seq::empty(),
            basic_password: Seq::empty(),
            bearer_token: Seq::empty(),
        }
    }
}

impl Auth {
    /// The auth value used wherever no folder on a path defines one.
    pub fn no_auth() -> (r: Auth)
        ensures
            r.deep_view() == AuthImage::no_auth(),
    {
        let r = Auth {
            auth_type: AuthType::NoAuth,
            basic_username: String::new(),
            basic_password: String::new(),
            bearer_token: String::new(),
        };
        assert(r.deep_view() =~= AuthImage::no_auth());
        r
    }

    /// An exact copy, made field by field.
    pub fn deep_copy(&self) -> (r: Auth)
        ensures
            r.deep_view() == self.deep_view(),
    {
        Auth {
            auth_type: self.auth_type,
            basic_username: self.basic_username.clone(),
            basic_password: self.basic_password.clone(),
            bearer_token: self.bearer_token.clone(),
        }
    }

    /// Structural comparison of every field.
    pub fn same_as(&self, other: &Auth) -> (r: bool)
        ensures
            r == (self.deep_view() == other.deep_view()),
    {
        let r = self.auth_type == other.auth_type && self.basic_username == other.basic_username
            && self.basic_password == other.basic_password
            && self.bearer_token == other.bearer_token;
        if r {
            assert(self.deep_view() =~= other.deep_view());
        }
        r
    }
}

} // verus!
