//! Login state: the authenticated identity returned by the backend, and the
//! mutable auth state shared by every API client (access token, refresh hook,
//! unauthorized hook).

use vstd::prelude::*;

verus! {

/// Dashboard user (the subset of the backend's self-user record the pages read).
#[derive(Debug, Clone, PartialEq, Default)]
pub struct User {
    pub id: i32,
    pub username: String,
    pub display_name: String,
    pub role: i32,
    pub status: i32,
    pub email: String,
    pub group: String,
    pub quota: i64,
    pub used_quota: i64,
    pub request_count: i64,
}

/// Server login session reference; only its id is used client-side.
#[derive(Debug, Clone, PartialEq, Default)]
pub struct SessionInfo {
    pub sid: String,
}

/// Authentication bundle returned by login, two-factor verification and refresh.
#[derive(Debug, Clone, PartialEq, Default)]
pub struct AuthBundle {
    pub access_token: String,
    pub token_type: String,
    pub access_expires_at: i64,
    pub session: SessionInfo,
    pub user: User,
}

/// The view of an optional string.
pub open spec fn opt_string_view(s: Option<String>) -> Option<Seq<char>> {
    match s {
        Some(t) => Some(t@),
        None => None,
    }
}

/// Auth state shared by the API clients: the current access token, the
/// refresher `R` that produces a token refresh, and the hook `H` run when a
/// request comes back unauthorized.
pub struct AuthState<R, H> {
    token: Option<String>,
    refresher: Option<R>,
    on_unauthorized: Option<H>,
}

impl<R, H> AuthState<R, H> {
    /// The current access token.
    pub closed spec fn token_view(self) -> Option<Seq<char>> {
        opt_string_view(self.token)
    }

    /// The registered refresher.
    pub closed spec fn refresher_view(self) -> Option<R> {
        self.refresher
    }

    /// The registered unauthorized hook.
    pub closed spec fn hook_view(self) -> Option<H> {
        self.on_unauthorized
    }

    /// No token, no refresher, no hook.
    pub fn new() -> (s: Self)
        ensures
            s.token_view() is None,
            s.refresher_view() is None,
            s.hook_view() is None,
    {
        AuthState { token: None, refresher: None, on_unauthorized: None }
    }

    /// Replaces the token; the hooks stay.
    pub fn set_token(&mut self, token: Option<String>)
        ensures
            final(self).token_view() == opt_string_view(token),
            final(self).refresher_view() == old(self).refresher_view(),
            final(self).hook_view() == old(self).hook_view(),
    {
        self.token = token;
    }

    /// A copy of the current token.
    pub fn token(&self) -> (r: Option<String>)
        ensures
            opt_string_view(r) == self.token_view(),
    {
        match &self.token {
            Some(t) => Some(t.clone()),
            None => None,
        }
    }

    /// Registers the refresher, replacing any earlier one.
    pub fn set_refresher(&mut self, refresher: R)
        ensures
            final(self).refresher_view() == Some(refresher),
            final(self).token_view() == old(self).token_view(),
            final(self).hook_view() == old(self).hook_view(),
    {
        self.refresher = Some(refresher);
    }

    /// Registers the unauthorized hook, replacing any earlier one.
    pub fn set_on_unauthorized(&mut self, f: H)
        ensures
            final(self).hook_view() == Some(f),
            final(self).token_view() == old(self).token_view(),
            final(self).refresher_view() == old(self).refresher_view(),
    {
        self.on_unauthorized = Some(f);
    }
}

impl<R, H: Fn()> AuthState<R, H> {
    /// Runs the unauthorized hook if one is registered: what the hook
    /// ensures of a call then holds.
    pub fn fire_unauthorized(&self)
        requires
            self.hook_view() matches Some(h) ==> h.requires(()),
        ensures
            self.hook_view() matches Some(h) ==> h.ensures((), ()),
    {
        if let Some(f) = &self.on_unauthorized {
            f();
        }
    }
}

impl<T, R: Fn() -> T, H> AuthState<R, H> {
    /// A refresh produced by the registered refresher, which stays registered
    /// for later refreshes; `None` when no refresher is registered.
    pub fn refresh(&self) -> (r: Option<T>)
        requires
            self.refresher_view() matches Some(f) ==> f.requires(()),
        ensures
            r is Some <==> self.refresher_view() is Some,
            r matches Some(t) ==> self.refresher_view()->0.ensures((), t),
    {
        match &self.refresher {
            Some(f) => Some(f()),
            None => None,
        }
    }
}

} // verus!
