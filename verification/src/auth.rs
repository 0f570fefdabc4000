//! The authenticator: consult the token table first, and only on a miss
//! begin an authorization flow; what the flow yields is persisted through
//! the table before it is returned.
use vstd::prelude::*;
use crate::config::OAuthConfig;
use crate::flow::flow_started_for;
use crate::flow::Flow;
use crate::store::first_write_insert;
use crate::store::CacheToken;

verus! {

/// How an authentication attempt starts: with a token already cached —
/// then nothing else happens, no listener and no network — or with a
/// fresh flow whose URL stands ready.
pub enum AuthStart {
    /// The cached token, returned as it is; it is never validated or
    /// refreshed.
    CachedToken(String),
    /// No cached token: the flow to drive to completion.
    StartFlow(Flow),
}

/// Consults the store first. A cached token for `service_name` is handed
/// back at once and no flow is begun; only a miss starts one.
pub fn begin_authentication(store: &CacheToken, cfg: &OAuthConfig, service_name: &str) -> (r:
    AuthStart)
    ensures
        store@.contains_key(service_name@) ==> (r matches AuthStart::CachedToken(t) && t@
            == store@[service_name@]),
        !store@.contains_key(service_name@) ==> (r matches AuthStart::StartFlow(f)
            && flow_started_for(f, *cfg)),
{
    match store.lookup(service_name) {
        Some(token) => AuthStart::CachedToken(token),
        None => AuthStart::StartFlow(Flow::begin(cfg)),
    }
}

/// Persists a token a completed flow yielded and hands it back to the
/// caller. The binding is added only where the service is still unknown:
/// an existing entry is never overwritten.
pub fn complete_authentication(store: &mut CacheToken, service_name: &str, token: &str) -> (r:
    String)
    ensures
        final(store)@ == first_write_insert(old(store)@, service_name@, token@),
        r@ == token@,
{
    store.insert(service_name, token);
    token.to_owned()
}

} // verus!
