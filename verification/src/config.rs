//! The typed form of one service's OAuth block, built by an explicit,
//! fallible parse from raw field pairs.
use vstd::prelude::*;
use crate::kv::assoc_get;
use crate::kv::assoc_lookup;
use crate::kv::pairs_view;

verus! {

/// Why a configuration block cannot drive an authentication attempt.
#[derive(Debug, Clone, Copy, PartialEq, Eq, Structural)]
pub enum ConfigError {
    /// The block names no `client_id`.
    MissingClientId,
    /// The block names no `auth_uri`.
    MissingAuthEndpoint,
}

/// One service's OAuth block, as typed fields: the client identifier and
/// the authorization endpoint are required, the rest may be absent.
pub struct OAuthConfig {
    pub client_id: String,
    pub client_secret: Option<String>,
    pub auth_endpoint: String,
    pub token_endpoint: Option<String>,
    pub scope: Option<String>,
}

impl OAuthConfig {
    /// Builds the typed configuration from the raw field pairs of a
    /// service's OAuth block. `client_id` and `auth_uri` must be present;
    /// `client_secret`, `token_uri` and `scope` may be absent. A missing
    /// required field is the error that names it, the client identifier
    /// being checked first.
    pub fn from_pairs(pairs: &Vec<(String, String)>) -> (r: Result<OAuthConfig, ConfigError>)
        ensures
            ({
                let pv = pairs_view(pairs@);
                match r {
                    Ok(cfg) => {
                        &&& assoc_lookup(pv, "client_id"@) == Some(cfg.client_id@)
                        &&& assoc_lookup(pv, "auth_uri"@) == Some(cfg.auth_endpoint@)
                        &&& match cfg.client_secret {
                            Some(v) => assoc_lookup(pv, "client_secret"@) == Some(v@),
                            None => assoc_lookup(pv, "client_secret"@) is None,
                        }
                        &&& match cfg.token_endpoint {
                            Some(v) => assoc_lookup(pv, "token_uri"@) == Some(v@),
                            None => assoc_lookup(pv, "token_uri"@) is None,
                        }
                        &&& match cfg.scope {
                            Some(v) => assoc_lookup(pv, "scope"@) == Some(v@),
                            None => assoc_lookup(pv, "scope"@) is None,
                        }
                    },
                    Err(ConfigError::MissingClientId) => assoc_lookup(pv, "client_id"@) is None,
                    Err(ConfigError::MissingAuthEndpoint) => assoc_lookup(pv, "client_id"@)
                        is Some && assoc_lookup(pv, "auth_uri"@) is None,
                }
            }),
    {
        let client_id = match assoc_get(pairs, "client_id") {
            Some(v) => v,
            None => {
                return Err(ConfigError::MissingClientId);
            },
        };
        let auth_endpoint = match assoc_get(pairs, "auth_uri") {
            Some(v) => v,
            None => {
                return Err(ConfigError::MissingAuthEndpoint);
            },
        };
        let client_secret = assoc_get(pairs, "client_secret");
        let token_endpoint = assoc_get(pairs, "token_uri");
        let scope = assoc_get(pairs, "scope");
        Ok(OAuthConfig { client_id, client_secret, auth_endpoint, token_endpoint, scope })
    }
}

} // verus!
