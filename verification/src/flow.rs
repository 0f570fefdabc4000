//! The authorization-code flow as a state machine: the URL and exchange
//! request are built and every decision about the callback and the token
//! response is made here; the caller only performs the outside work each
//! state asks for.
use vstd::prelude::*;
use vstd::string::StringExecFns;
use vstd::utf8::encode_utf8;
use crate::b64::b64url;
use crate::config::OAuthConfig;
use crate::errors::AuthError;
use crate::json::extract_access_token;
use crate::json::token_from_json;
use crate::pct::pct_encode;
use crate::pct::pct_encode_push;
use crate::pkce::new_state_token;
use crate::pkce::sha256_of;
use crate::pkce::PkceChallenge;
use crate::strings::chars_of;
use crate::url::parse_redirect;
use crate::url::redirect_outcome;

verus! {

/// The characters of an optional string.
pub open spec fn opt_chars(o: Option<String>) -> Option<Seq<char>> {
    match o {
        Some(s) => Some(s@),
        None => None,
    }
}

/// The authorization URL the user is sent to: the endpoint, then the
/// response type, the client identifier, the fixed loopback redirect, the
/// scope where one is configured, the anti-forgery state, and the code
/// challenge with its method.
pub open spec fn authorize_url_of(
    auth_endpoint: Seq<char>,
    client_id: Seq<char>,
    scope: Option<Seq<char>>,
    state: Seq<char>,
    challenge: Seq<char>,
) -> Seq<char> {
    auth_endpoint + "?response_type=code&client_id="@ + pct_encode(client_id)
        + "&redirect_uri=http%3A%2F%2Flocalhost%3A8080"@ + (match scope {
        Some(sc) => "&scope="@ + pct_encode(sc),
        None => Seq::empty(),
    }) + "&state="@ + pct_encode(state) + "&code_challenge="@ + pct_encode(challenge)
        + "&code_challenge_method=S256"@
}

/// The body posted to the token endpoint: the grant type, the captured
/// code, the fixed loopback redirect, the client identifier, the proof-key
/// verifier, and the client secret where one is configured.
pub open spec fn token_request_body_of(
    code: Seq<char>,
    verifier: Seq<char>,
    client_id: Seq<char>,
    client_secret: Option<Seq<char>>,
) -> Seq<char> {
    "grant_type=authorization_code&code="@ + pct_encode(code)
        + "&redirect_uri=http%3A%2F%2Flocalhost%3A8080"@ + "&client_id="@ + pct_encode(client_id)
        + "&code_verifier="@ + pct_encode(verifier) + (match client_secret {
        Some(s) => "&client_secret="@ + pct_encode(s),
        None => Seq::empty(),
    })
}

/// What one authorization attempt keeps across its steps: the client's
/// identity, where to exchange the code, and the two per-attempt secrets.
pub struct Attempt {
    pub client_id: String,
    pub client_secret: Option<String>,
    pub token_endpoint: Option<String>,
    pub state: String,
    pub verifier: String,
}

/// One authorization-code round trip, step by step. The caller performs
/// the outside work each state asks for — show and open the URL, accept
/// exactly one loopback connection, post the exchange request — and hands
/// the outcome back; every decision about it is made here.
pub enum Flow {
    /// The authorization URL is ready: print it and try a browser.
    AwaitingUserConsent { attempt: Attempt, authorize_url: String },
    /// The user is consenting: accept one connection on the loopback
    /// listener, answer it with `callback_response`, and hand back the
    /// request line.
    AwaitingCallback { attempt: Attempt },
    /// The code is captured: post `request_body` to `token_endpoint` as a
    /// form and hand back status and body.
    Exchanging { token_endpoint: String, request_body: String },
    /// The token is in hand.
    Done { token: String },
    /// The attempt failed; nothing is retried.
    Failed { error: AuthError },
}

/// Builds the authorization URL for one attempt.
pub fn build_authorize_url(
    auth_endpoint: &str,
    client_id: &str,
    scope: &Option<String>,
    state: &str,
    challenge: &str,
) -> (r: String)
    ensures
        r@ == authorize_url_of(
            auth_endpoint@,
            client_id@,
            opt_chars(*scope),
            state@,
            challenge@,
        ),
{
    let mut url = String::new();
    url.append(auth_endpoint);
    url.append("?response_type=code&client_id=");
    let cid = chars_of(client_id);
    pct_encode_push(&mut url, cid.as_slice());
    url.append("&redirect_uri=http%3A%2F%2Flocalhost%3A8080");
    match scope {
        Some(sc) => {
            url.append("&scope=");
            let scv = chars_of(sc.as_str());
            pct_encode_push(&mut url, scv.as_slice());
        },
        None => {},
    }
    url.append("&state=");
    let stv = chars_of(state);
    pct_encode_push(&mut url, stv.as_slice());
    url.append("&code_challenge=");
    let chv = chars_of(challenge);
    pct_encode_push(&mut url, chv.as_slice());
    url.append("&code_challenge_method=S256");
    url
}

/// Builds the form body for the code exchange.
pub fn build_token_request_body(
    code: &str,
    verifier: &str,
    client_id: &str,
    client_secret: &Option<String>,
) -> (r: String)
    ensures
        r@ == token_request_body_of(code@, verifier@, client_id@, opt_chars(*client_secret)),
{
    let mut body = String::new();
    body.append("grant_type=authorization_code&code=");
    let cv = chars_of(code);
    pct_encode_push(&mut body, cv.as_slice());
    body.append("&redirect_uri=http%3A%2F%2Flocalhost%3A8080");
    body.append("&client_id=");
    let idv = chars_of(client_id);
    pct_encode_push(&mut body, idv.as_slice());
    body.append("&code_verifier=");
    let vv = chars_of(verifier);
    pct_encode_push(&mut body, vv.as_slice());
    match client_secret {
        Some(s) => {
            body.append("&client_secret=");
            let sv = chars_of(s.as_str());
            pct_encode_push(&mut body, sv.as_slice());
        },
        None => {},
    }
    body
}

/// The fixed answer the browser is shown on the one callback connection:
/// a minimal HTTP response whose content-length names the 27 characters of
/// its body.
pub fn callback_response() -> (r: String)
    ensures
        r@ == "HTTP/1.1 200 OK\r\ncontent-length: 27\r\n\r\n"@ + "Go back to your terminal :)"@,
        "Go back to your terminal :)"@.len() == 27,
{
    proof {
        reveal_strlit("HTTP/1.1 200 OK\r\ncontent-length: 27\r\n\r\n");
        reveal_strlit("Go back to your terminal :)");
        reveal_strlit("HTTP/1.1 200 OK\r\ncontent-length: 27\r\n\r\nGo back to your terminal :)");
        assert("HTTP/1.1 200 OK\r\ncontent-length: 27\r\n\r\nGo back to your terminal :)"@
            =~= "HTTP/1.1 200 OK\r\ncontent-length: 27\r\n\r\n"@
            + "Go back to your terminal :)"@);
    }
    "HTTP/1.1 200 OK\r\ncontent-length: 27\r\n\r\nGo back to your terminal :)".to_owned()
}

/// What a freshly begun attempt looks like: it awaits the user's consent,
/// carries the configuration's identity and endpoints, and its URL is
/// built from the drawn state and the challenge derived from the drawn
/// verifier.
pub open spec fn flow_started_for(r: Flow, cfg: OAuthConfig) -> bool {
    &&& r matches Flow::AwaitingUserConsent { attempt, authorize_url }
    &&& attempt.client_id@ == cfg.client_id@
    &&& opt_chars(attempt.client_secret) == opt_chars(cfg.client_secret)
    &&& opt_chars(attempt.token_endpoint) == opt_chars(cfg.token_endpoint)
    &&& attempt.state@.len() == 43
    &&& authorize_url@ == authorize_url_of(
        cfg.auth_endpoint@,
        cfg.client_id@,
        opt_chars(cfg.scope),
        attempt.state@,
        b64url(sha256_of(encode_utf8(attempt.verifier@))),
    )
}

impl Flow {
    /// Starts one attempt: draws the proof key and the anti-forgery state,
    /// and builds the authorization URL from them and the configuration.
    pub fn begin(cfg: &OAuthConfig) -> (r: Flow)
        ensures
            flow_started_for(r, *cfg),
    {
        let pkce = PkceChallenge::generate();
        let state = new_state_token();
        let authorize_url = build_authorize_url(
            cfg.auth_endpoint.as_str(),
            cfg.client_id.as_str(),
            &cfg.scope,
            state.as_str(),
            pkce.challenge.as_str(),
        );
        let client_secret = match &cfg.client_secret {
            Some(s) => Some(s.clone()),
            None => None,
        };
        let token_endpoint = match &cfg.token_endpoint {
            Some(s) => Some(s.clone()),
            None => None,
        };
        let attempt = Attempt {
            client_id: cfg.client_id.clone(),
            client_secret,
            token_endpoint,
            state,
            verifier: pkce.verifier,
        };
        Flow::AwaitingUserConsent { attempt, authorize_url }
    }

    /// Notes how showing the URL went. A browser that would not open is
    /// logged by the caller and changes nothing: the printed URL remains
    /// the way in, and the attempt now awaits the callback.
    pub fn on_browser_result(self, opened: bool) -> (r: Flow)
        requires
            self is AwaitingUserConsent,
        ensures
            (r matches Flow::AwaitingCallback { attempt } && attempt
                == self->AwaitingUserConsent_attempt),
    {
        match self {
            Flow::AwaitingUserConsent { attempt, authorize_url: _ } => {
                let _ = opened;
                Flow::AwaitingCallback { attempt }
            },
            _ => self,
        }
    }

    /// Decides on the one callback request: a missing `code` or `state` is
    /// `MalformedRedirect`, a state other than this attempt's is
    /// `StateMismatch`, and in neither case is an exchange request built;
    /// otherwise the exchange request stands ready, unless no token
    /// endpoint is configured, which is `TokenExchangeFailed`.
    pub fn on_callback(self, request_line: &str) -> (r: Flow)
        requires
            self is AwaitingCallback,
        ensures
            ({
                let att = self->AwaitingCallback_attempt;
                match redirect_outcome(request_line@, att.state@) {
                    Err(e) => r == (Flow::Failed { error: e }),
                    Ok(code) => match att.token_endpoint {
                        None => r == (Flow::Failed { error: AuthError::TokenExchangeFailed }),
                        Some(te) => {
                            &&& r matches Flow::Exchanging { token_endpoint, request_body }
                            &&& token_endpoint@ == te@
                            &&& request_body@ == token_request_body_of(
                                code,
                                att.verifier@,
                                att.client_id@,
                                opt_chars(att.client_secret),
                            )
                        },
                    },
                }
            }),
    {
        match self {
            Flow::AwaitingCallback { attempt } => {
                let code = match parse_redirect(request_line, attempt.state.as_str()) {
                    Ok(code) => code,
                    Err(e) => {
                        return Flow::Failed { error: e };
                    },
                };
                let token_endpoint = match attempt.token_endpoint {
                    Some(te) => te,
                    None => {
                        return Flow::Failed { error: AuthError::TokenExchangeFailed };
                    },
                };
                let request_body = build_token_request_body(
                    code.as_str(),
                    attempt.verifier.as_str(),
                    attempt.client_id.as_str(),
                    &attempt.client_secret,
                );
                Flow::Exchanging { token_endpoint, request_body }
            },
            _ => self,
        }
    }

    /// Decides on the token endpoint's answer: any status outside the
    /// successful range, or a body without an access token, is
    /// `TokenExchangeFailed`; otherwise the token is in hand.
    pub fn on_token_response(self, status: u16, body: &str) -> (r: Flow)
        requires
            self is Exchanging,
        ensures
            ({
                if !(200 <= status < 300) {
                    r == (Flow::Failed { error: AuthError::TokenExchangeFailed })
                } else {
                    match token_from_json(body@) {
                        None => r == (Flow::Failed { error: AuthError::TokenExchangeFailed }),
                        Some(tok) => r matches Flow::Done { token } && token@ == tok,
                    }
                }
            }),
    {
        if !(200 <= status && status < 300) {
            return Flow::Failed { error: AuthError::TokenExchangeFailed };
        }
        match extract_access_token(body) {
            Some(token) => Flow::Done { token },
            None => Flow::Failed { error: AuthError::TokenExchangeFailed },
        }
    }
}

} // verus!
