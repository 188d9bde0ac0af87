//! The bearer-token check's data: the verifying secret and the claims a
//! token carries.  Token parsing and signature verification belong to the
//! routing layer outside the core.

use vstd::prelude::*;

verus! {

/// The claims of an accepted token.
#[derive(Debug, Clone, PartialEq, Eq)]
pub struct Claims {
    pub sub: String,
    pub exp: usize,
    pub token_type: String,
}

/// The authentication layer's configuration.
pub struct Auth {
    jwt_secret: String,
}

impl Auth {
    pub fn new(jwt_secret: String) -> (r: Auth)
        ensures
            r.spec_secret() == jwt_secret@,
    {
        Auth { jwt_secret }
    }

    pub closed spec fn spec_secret(&self) -> Seq<char> {
        self.jwt_secret@
    }

    /// The secret tokens are verified against.
    pub fn secret(&self) -> (s: &str)
        ensures
            s@ == self.spec_secret(),
    {
        self.jwt_secret.as_str()
    }
}

/// The authentication layer wrapped around an inner service.
pub struct AuthMiddleware<S> {
    pub service: S,
    pub jwt_secret: String,
}

} // verus!
