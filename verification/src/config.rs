//! SDK configuration primitives.
use std::time::Duration;
use vstd::prelude::*;

use crate::text::opt_view;

verus! {

/// Authentication strategy applied to outgoing SDK requests.
#[derive(Clone, Debug, PartialEq, Eq)]
pub enum AuthStrategy {
    /// Do not attach authentication.
    NoAuth,
    /// Attach an HTTP bearer token.
    Bearer(String),
}

/// The bearer token of a strategy, by its characters.
pub open spec fn token_view(auth: AuthStrategy) -> Option<Seq<char>> {
    match auth {
        AuthStrategy::NoAuth => None,
        AuthStrategy::Bearer(t) => Some(t@),
    }
}

impl Default for AuthStrategy {
    /// No authentication.
    fn default() -> (r: Self)
        ensures
            r is NoAuth,
    {
        AuthStrategy::NoAuth
    }
}

impl AuthStrategy {
    /// Returns `true` if authentication is configured.
    pub fn is_configured(&self) -> (r: bool)
        ensures
            r == !(*self is NoAuth),
    {
        match self {
            AuthStrategy::NoAuth => false,
            AuthStrategy::Bearer(_) => true,
        }
    }

    /// Returns the bearer token if this strategy is `Bearer`.
    pub fn bearer_token(&self) -> (r: Option<&String>)
        ensures
            match r {
                Some(t) => token_view(*self) == Some(t@),
                None => token_view(*self) is None,
            },
    {
        match self {
            AuthStrategy::Bearer(token) => Some(token),
            AuthStrategy::NoAuth => None,
        }
    }
}

/// Runtime configuration for the FerrisKey SDK.
#[derive(Clone, Debug, PartialEq, Eq)]
pub struct SdkConfig {
    base_url: String,
    auth: AuthStrategy,
    timeout: Option<Duration>,
    user_agent: Option<String>,
}

/// The settings of a configuration.
pub struct ConfigParts {
    pub base_url: Seq<char>,
    pub token: Option<Seq<char>>,
    pub timeout: Option<Duration>,
    pub user_agent: Option<Seq<char>>,
}

impl View for SdkConfig {
    type V = ConfigParts;

    closed spec fn view(&self) -> ConfigParts {
        ConfigParts {
            base_url: self.base_url@,
            token: token_view(self.auth),
            timeout: self.timeout,
            user_agent: opt_view(self.user_agent),
        }
    }
}

impl SdkConfig {
    /// Create a new SDK configuration.
    pub fn new(base_url: &str, auth: AuthStrategy) -> (r: Self)
        ensures
            r@ == (ConfigParts {
                base_url: base_url@,
                token: token_view(auth),
                timeout: None,
                user_agent: None,
            }),
    {
        SdkConfig { base_url: base_url.to_owned(), auth, timeout: None, user_agent: None }
    }

    /// Create a typed builder with the required base URL.
    pub fn builder(base_url: &str) -> (b: SdkConfigBuilder<BaseUrlSet>)
        ensures
            b@ == (ConfigParts { base_url: base_url@, token: None, timeout: None, user_agent: None }),
    {
        SdkConfigBuilder {
            base_url: base_url.to_owned(),
            auth: AuthStrategy::NoAuth,
            timeout: None,
            user_agent: None,
            _state: std::marker::PhantomData,
        }
    }

    /// Access the base URL.
    pub fn base_url(&self) -> (r: &str)
        ensures
            r@ == self@.base_url,
    {
        self.base_url.as_str()
    }

    /// Access the authentication strategy.
    pub fn auth(&self) -> (r: &AuthStrategy)
        ensures
            token_view(*r) == self@.token,
    {
        &self.auth
    }

    /// Access the configured timeout.
    pub fn timeout(&self) -> (r: Option<Duration>)
        ensures
            r == self@.timeout,
    {
        self.timeout
    }

    /// Access the user-agent string.
    pub fn user_agent(&self) -> (r: Option<&str>)
        ensures
            match r {
                Some(u) => self@.user_agent == Some(u@),
                None => self@.user_agent is None,
            },
    {
        match &self.user_agent {
            Some(u) => Some(u.as_str()),
            None => None,
        }
    }
}

/// TypeState marker: base URL has been set.
#[derive(Debug, Clone, Copy)]
pub struct BaseUrlSet;

/// Typed builder for [`SdkConfig`].
#[derive(Debug)]
pub struct SdkConfigBuilder<S> {
    base_url: String,
    auth: AuthStrategy,
    timeout: Option<Duration>,
    user_agent: Option<String>,
    _state: std::marker::PhantomData<S>,
}

impl<S> View for SdkConfigBuilder<S> {
    type V = ConfigParts;

    closed spec fn view(&self) -> ConfigParts {
        ConfigParts {
            base_url: self.base_url@,
            token: token_view(self.auth),
            timeout: self.timeout,
            user_agent: opt_view(self.user_agent),
        }
    }
}

impl SdkConfigBuilder<BaseUrlSet> {
    /// Build the configuration.
    pub fn build(self) -> (r: SdkConfig)
        ensures
            r@ == self@,
    {
        SdkConfig {
            base_url: self.base_url,
            auth: self.auth,
            timeout: self.timeout,
            user_agent: self.user_agent,
        }
    }
}

impl<S> SdkConfigBuilder<S> {
    /// Set the authentication strategy.
    pub fn auth(self, auth: AuthStrategy) -> (r: Self)
        ensures
            r@ == (ConfigParts { token: token_view(auth), ..self@ }),
    {
        SdkConfigBuilder { auth, ..self }
    }

    /// Set the request timeout.
    pub fn timeout(self, timeout: Duration) -> (r: Self)
        ensures
            r@ == (ConfigParts { timeout: Some(timeout), ..self@ }),
    {
        SdkConfigBuilder { timeout: Some(timeout), ..self }
    }

    /// Set the user-agent header.
    pub fn user_agent(self, agent: &str) -> (r: Self)
        ensures
            r@ == (ConfigParts { user_agent: Some(agent@), ..self@ }),
    {
        SdkConfigBuilder { user_agent: Some(agent.to_owned()), ..self }
    }
}

/// Extension trait for building auth strategies fluently.
pub trait AuthStrategyExt {
    /// Create a bearer auth strategy.
    fn bearer(token: &str) -> (r: AuthStrategy)
        ensures
            token_view(r) == Some(token@),
    ;
}

impl AuthStrategyExt for AuthStrategy {
    fn bearer(token: &str) -> (r: AuthStrategy) {
        AuthStrategy::Bearer(token.to_owned())
    }
}

} // verus!
