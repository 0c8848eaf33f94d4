//! The two authorization tiers: one shared API token carried in its own
//! header, and a set of admin bearer tokens.

use vstd::prelude::*;
use crate::config::AppState;
use crate::status::StatusCode;

verus! {

/// What a tier decides about a presented credential.
#[derive(Clone, Copy, Debug, PartialEq, Eq, Structural)]
pub enum AuthOutcome {
    Authorized,
    /// No credential, or (admin tier) one that is not in the set.
    Unauthorized,
    /// A credential was presented to the API tier and is not the token.
    Forbidden,
}

impl AuthOutcome {
    pub open spec fn spec_status(self) -> StatusCode {
        match self {
            AuthOutcome::Authorized => StatusCode::Success,
            AuthOutcome::Unauthorized => StatusCode::Unauthorized,
            AuthOutcome::Forbidden => StatusCode::Forbidden,
        }
    }

    /// The response class of a decision.
    pub fn status(self) -> (status: StatusCode)
        ensures
            status == self.spec_status(),
    {
        match self {
            AuthOutcome::Authorized => StatusCode::Success,
            AuthOutcome::Unauthorized => StatusCode::Unauthorized,
            AuthOutcome::Forbidden => StatusCode::Forbidden,
        }
    }
}

/// Why a header could not be read as an access token.
#[derive(Clone, Copy, Debug, PartialEq, Eq, Structural)]
pub enum HeaderError {
    /// The header is absent or its first value is not visible ASCII.
    Invalid,
}

/// Bytes that may appear in a header value read as text: printable ASCII
/// and the horizontal tab.
pub open spec fn is_visible_ascii(b: u8) -> bool {
    32 <= b < 127 || b == 9
}

/// Bytes that a header value may hold at all.
pub open spec fn is_header_byte(b: u8) -> bool {
    (32 <= b && b != 127) || b == 9
}

pub open spec fn all_visible_ascii(bytes: Seq<u8>) -> bool {
    forall|i: int| 0 <= i < bytes.len() ==> is_visible_ascii(#[trigger] bytes[i])
}

pub open spec fn all_header_bytes(bytes: Seq<u8>) -> bool {
    forall|i: int| 0 <= i < bytes.len() ==> is_header_byte(#[trigger] bytes[i])
}

/// ASCII bytes read as characters, one for one.
pub open spec fn ascii_text(bytes: Seq<u8>) -> Seq<char> {
    Seq::new(bytes.len(), |i: int| bytes[i] as char)
}

/// Builds an `http::HeaderValue` with `from_bytes` and reads it back with
/// `to_str`. Trusted: text comes back exactly when every byte is printable
/// ASCII or a tab, and then it is those bytes as characters.
#[verifier::external_body]
fn header_text(bytes: &Vec<u8>) -> (text: Option<String>)
    ensures
        text is Some <==> all_visible_ascii(bytes@),
        text is Some ==> text->Some_0@ == ascii_text(bytes@),
{
    match axum::http::HeaderValue::from_bytes(bytes.as_slice()) {
        Ok(value) => match value.to_str() {
            Ok(text) => Some(text.to_string()),
            Err(_) => None,
        },
        Err(_) => None,
    }
}

/// Builds an `http::HeaderValue` with `from_str` and returns its bytes.
/// Trusted: a value comes back exactly when no byte of the text is a control
/// character other than a tab, and then it holds the text's UTF-8 bytes.
#[verifier::external_body]
fn header_bytes(text: &str) -> (bytes: Option<Vec<u8>>)
    ensures
        bytes is Some <==> all_header_bytes(vstd::utf8::encode_utf8(text@)),
        bytes is Some ==> bytes->Some_0@ == vstd::utf8::encode_utf8(text@),
{
    match axum::http::HeaderValue::from_str(text) {
        Ok(value) => Some(value.as_bytes().to_vec()),
        Err(_) => None,
    }
}

/// The credential of the API tier, as carried in its header.
pub struct AccessTokenHeader(pub String);

impl AccessTokenHeader {
    pub fn token(&self) -> (token: &str)
        ensures
            token@ == self.0@,
    {
        self.0.as_str()
    }

    /// The lowercase name of the header that carries the token.
    pub fn name() -> (name: &'static str)
        ensures
            name@ == "x-access-token"@,
    {
        "x-access-token"
    }

    /// The header values to send for this token: one value holding its
    /// bytes, or none when the token cannot stand in a header.
    pub fn encode(&self) -> (values: Vec<Vec<u8>>)
        ensures
            all_header_bytes(vstd::utf8::encode_utf8(self.0@)) ==> values@.len() == 1
                && values@[0]@ == vstd::utf8::encode_utf8(self.0@),
            !all_header_bytes(vstd::utf8::encode_utf8(self.0@)) ==> values@.len() == 0,
    {
        let mut values: Vec<Vec<u8>> = Vec::new();
        match header_bytes(self.0.as_str()) {
            Some(bytes) => {
                values.push(bytes);
            },
            None => {},
        }
        values
    }

    /// Reads a token from the values of its header: the first value, which
    /// must be visible ASCII. Further values are ignored.
    pub fn decode(values: &Vec<Vec<u8>>) -> (decoded: Result<AccessTokenHeader, HeaderError>)
        ensures
            decoded is Ok <==> values@.len() > 0 && all_visible_ascii(values@[0]@),
            decoded is Ok ==> decoded->Ok_0.0@ == ascii_text(values@[0]@),
            decoded is Err ==> decoded->Err_0 == HeaderError::Invalid,
    {
        if values.len() == 0 {
            return Err(HeaderError::Invalid);
        }
        match header_text(&values[0]) {
            Some(text) => Ok(AccessTokenHeader(text)),
            None => Err(HeaderError::Invalid),
        }
    }
}

/// The decision of the API tier on a presented credential.
pub open spec fn api_decision(configured: Seq<char>, presented: Option<Seq<char>>) -> AuthOutcome {
    match presented {
        None => AuthOutcome::Unauthorized,
        Some(token) => if token == configured {
            AuthOutcome::Authorized
        } else {
            AuthOutcome::Forbidden
        },
    }
}

/// Membership in the admin token set.
pub open spec fn is_admin_token(tokens: Seq<String>, token: Seq<char>) -> bool {
    exists|i: int| 0 <= i < tokens.len() && (#[trigger] tokens[i])@ == token
}

/// The decision of the admin tier on a presented bearer credential.
pub open spec fn admin_decision(tokens: Seq<String>, presented: Option<Seq<char>>) -> AuthOutcome {
    match presented {
        None => AuthOutcome::Unauthorized,
        Some(token) => if is_admin_token(tokens, token) {
            AuthOutcome::Authorized
        } else {
            AuthOutcome::Unauthorized
        },
    }
}

/// The two independent levels of access.
#[derive(Clone, Copy, Debug, PartialEq, Eq, Structural)]
pub enum Tier {
    /// Paste and report operations: the one shared token.
    Api,
    /// Moderation: any token of the admin set.
    Admin,
}

/// The decision of a tier on a presented credential.
pub open spec fn decision(state: &AppState, presented: Option<Seq<char>>, tier: Tier) -> AuthOutcome {
    match tier {
        Tier::Api => api_decision(state.access_token@, presented),
        Tier::Admin => admin_decision(state.admin_tokens@, presented),
    }
}

/// API tier: the presented token must equal the configured one. A missing
/// header is told apart from a wrong token.
pub fn api_auth_middleware(state: &AppState, header: Option<&AccessTokenHeader>) -> (outcome:
    AuthOutcome)
    ensures
        outcome == api_decision(
            state.access_token@,
            match header {
                Some(h) => Some(h.0@),
                None => None,
            },
        ),
{
    match header {
        None => AuthOutcome::Unauthorized,
        Some(h) => {
            if state.access_token == h.0 {
                AuthOutcome::Authorized
            } else {
                AuthOutcome::Forbidden
            }
        },
    }
}

/// Admin tier: the bearer token must be one of the configured admin tokens.
pub fn admin_auth_middleware(state: &AppState, bearer: Option<&str>) -> (outcome: AuthOutcome)
    ensures
        outcome == admin_decision(
            state.admin_tokens@,
            match bearer {
                Some(t) => Some(t@),
                None => None,
            },
        ),
{
    match bearer {
        None => AuthOutcome::Unauthorized,
        Some(token) => {
            let presented = token.to_owned();
            let mut i: usize = 0;
            while i < state.admin_tokens.len()
                invariant
                    0 <= i <= state.admin_tokens.len(),
                    presented@ == token@,
                    bearer == Some(token),
                    forall|j: int| 0 <= j < i ==> (#[trigger] state.admin_tokens@[j])@ != token@,
                decreases state.admin_tokens.len() - i,
            {
                if state.admin_tokens[i] == presented {
                    assert(state.admin_tokens@[i as int]@ == token@);
                    return AuthOutcome::Authorized;
                }
                i += 1;
            }
            AuthOutcome::Unauthorized
        },
    }
}

/// Decides on a credential for the given tier.
pub fn authorize(state: &AppState, presented: Option<&str>, tier: Tier) -> (outcome: AuthOutcome)
    ensures
        outcome == decision(
            state,
            match presented {
                Some(t) => Some(t@),
                None => None,
            },
            tier,
        ),
{
    match tier {
        Tier::Api => match presented {
            None => AuthOutcome::Unauthorized,
            Some(token) => {
                let header = AccessTokenHeader(token.to_owned());
                api_auth_middleware(state, Some(&header))
            },
        },
        Tier::Admin => admin_auth_middleware(state, presented),
    }
}

/// Neither tier lets a request through without a credential, and the API
/// tier authorizes exactly the configured token.
pub proof fn lemma_no_credential_no_access(state: &AppState, tier: Tier, token: Seq<char>)
    ensures
        decision(state, None, tier) == AuthOutcome::Unauthorized,
        decision(state, Some(token), Tier::Api) == AuthOutcome::Authorized <==> token
            == state.access_token@,
        decision(state, Some(token), Tier::Admin) == AuthOutcome::Authorized <==> is_admin_token(
            state.admin_tokens@,
            token,
        ),
        decision(state, Some(token), Tier::Admin) != AuthOutcome::Forbidden,
{
}

} // verus!
