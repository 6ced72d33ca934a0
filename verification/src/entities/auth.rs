use vstd::prelude::*;

verus! {

/// Mathematical view of [`Claims`].
#[verifier::ext_equal]
pub struct ClaimsView {
    pub iss: Seq<char>,
    pub sub: Seq<char>,
    pub aud: Seq<Seq<char>>,
    pub iat: u64,
    pub exp: u64,
    pub azp: Seq<char>,
    pub scope: Seq<char>,
}

/// The claim set of a validated token. The domain service reads only the
/// subject; signature verification belongs to the excluded transport layer.
#[derive(Debug)]
pub struct Claims {
    pub iss: String,
    pub sub: String,
    pub aud: Vec<String>,
    pub iat: u64,
    pub exp: u64,
    pub azp: String,
    pub scope: String,
}

impl View for Claims {
    type V = ClaimsView;

    open spec fn view(&self) -> ClaimsView {
        ClaimsView {
            iss: self.iss@,
            sub: self.sub@,
            aud: self.aud.deep_view(),
            iat: self.iat,
            exp: self.exp,
            azp: self.azp@,
            scope: self.scope@,
        }
    }
}

/// Mathematical view of an [`AuthState`].
#[verifier::ext_equal]
pub enum AuthView {
    Authorized(ClaimsView),
    Unauthorized,
}

impl AuthView {
    /// The subject of an authenticated caller.
    pub open spec fn sub(self) -> Seq<char>
        recommends
            self is Authorized,
    {
        self->Authorized_0.sub
    }
}

/// The identity context of one request: either authenticated with a claim
/// set, or unauthenticated. It is supplied by a collaborator and trusted as
/// a fact; the domain service never produces it.
#[derive(Debug)]
pub enum AuthState {
    Authorized(Claims),
    Unauthorized,
}

impl View for AuthState {
    type V = AuthView;

    open spec fn view(&self) -> AuthView {
        match self {
            AuthState::Authorized(claims) => AuthView::Authorized(claims@),
            AuthState::Unauthorized => AuthView::Unauthorized,
        }
    }
}

} // verus!
