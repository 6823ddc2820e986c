//! What the server is told at start, and the addresses that follow from it.

use vstd::prelude::*;
use vstd::string::StringExecFns;
use crate::text::begins_with;
use crate::text::starts_with;

verus! {

/// The settings of the server.
#[derive(Debug, Clone, PartialEq, Eq)]
pub struct Config {
    /// The directory of the static files.
    pub static_dir: String,
    /// The address of the scoring service.
    pub fetch_url: String,
    /// The origin under which the server is reached.
    pub origin: String,
    /// The origin of the login service.
    pub pgrit_origin: String,
    pub pgrit_client_key: String,
    pub pgrit_client_secret: String,
}

impl Config {
    /// The address to which the login service sends a member back.
    pub fn callback_url(&self) -> (r: String)
        ensures
            r@ == self.origin@ + "/api/auth/pgrit/confirm/"@,
    {
        self.origin.clone().concat("/api/auth/pgrit/confirm/")
    }

    /// The address at which the login service asks the member for consent.
    pub fn authorize_url(&self) -> (r: String)
        ensures
            r@ == self.pgrit_origin@ + "/oauth/authorize"@,
    {
        self.pgrit_origin.clone().concat("/oauth/authorize")
    }

    /// The address at which a code is exchanged for a token.
    pub fn token_url(&self) -> (r: String)
        ensures
            r@ == self.pgrit_origin@ + "/oauth/token"@,
    {
        self.pgrit_origin.clone().concat("/oauth/token")
    }

    /// The address at which a token is exchanged for the member's account.
    pub fn account_verify_url(&self) -> (r: String)
        ensures
            r@ == self.pgrit_origin@ + "/api/v1/accounts/verify_credentials"@,
    {
        self.pgrit_origin.clone().concat("/api/v1/accounts/verify_credentials")
    }

    /// Whether session cookies are limited to secure transport: they are
    /// where the server is reached over HTTPS.
    pub fn secure(&self) -> (r: bool)
        ensures
            r == begins_with(self.origin@, "https://"@),
    {
        starts_with(self.origin.as_str(), "https://")
    }
}

} // verus!
