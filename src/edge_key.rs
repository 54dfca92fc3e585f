//! The agent's identity bundle: base64url text whose JSON names the server,
//! the agent and the master key.

use vstd::prelude::*;
use vstd::string::*;
use crate::text::push_char;
use base64::Engine;

verus! {

/// The agent's identity and master key.
#[derive(Clone, Debug)]
pub struct EdgeKey {
    pub server_url: String,
    pub agent_id: String,
    pub master_key_b64: String,
}

/// Why the identity bundle was rejected.
#[derive(Clone, Copy, Debug, PartialEq, Eq, Structural)]
pub enum EdgeKeyError {
    /// Not base64url.
    Base64Error,
    /// Not a JSON object of the expected shape.
    JsonError,
    /// A required field is missing.
    InvalidKey,
}

/// `s` padded with `=` to a multiple of four characters.
pub open spec fn padded(s: Seq<char>) -> Seq<char> {
    s + Seq::new(((4 - s.len() % 4) % 4) as nat, |i: int| '=')
}

/// Pads the bundle with `=` to a multiple of four characters.
pub fn pad_base64(s: &str) -> (r: String)
    ensures
        r@ == padded(s@),
{
    let n = s.unicode_len();
    let pad: usize = (4 - n % 4) % 4;
    let mut out = String::from_str(s);
    let mut i: usize = 0;
    while i < pad
        invariant
            i <= pad,
            pad == (4 - s@.len() % 4) % 4,
            out@ == s@ + Seq::new(i as nat, |k: int| '='),
        decreases pad - i,
    {
        push_char(&mut out, '=');
        i = i + 1;
        assert(out@ =~= s@ + Seq::new(i as nat, |k: int| '='));
    }
    out
}

/// What base64 decoding of `s` with the URL-safe alphabet and padding yields.
pub uninterp spec fn url_safe_base64_decoded(s: Seq<char>) -> Option<Seq<u8>>;

/// Relies on base64's `general_purpose::URL_SAFE` engine (`Engine::decode`):
/// the bytes that `s` encodes, or an error on malformed input.
#[verifier::external_body]
fn decode_url_safe_base64(s: &str) -> (r: Result<Vec<u8>, base64::DecodeError>)
    ensures
        url_safe_base64_decoded(s@) == (match r {
            Ok(v) => Some(v@),
            Err(_) => None::<Seq<u8>>,
        }),
{
    base64::engine::general_purpose::URL_SAFE.decode(s)
}

/// The bytes of the bundle: padded, then decoded from base64url.
pub fn edge_key_bytes(edge_key: &str) -> (r: Result<Vec<u8>, EdgeKeyError>)
    ensures
        match url_safe_base64_decoded(padded(edge_key@)) {
            Some(b) => r.is_ok() && r.unwrap()@ == b,
            None => r == Err::<Vec<u8>, EdgeKeyError>(EdgeKeyError::Base64Error),
        },
{
    let p = pad_base64(edge_key);
    match decode_url_safe_base64(p.as_str()) {
        Ok(b) => Ok(b),
        Err(_) => Err(EdgeKeyError::Base64Error),
    }
}

/// The identity from the bundle's `serverUrl`, `agentId` and `masterKeyB64`
/// fields; a missing one makes the bundle invalid.
pub fn edge_key_from_fields(server_url: Option<String>, agent_id: Option<String>, master_key_b64: Option<String>)
    -> (r: Result<EdgeKey, EdgeKeyError>)
    ensures
        match (server_url, agent_id, master_key_b64) {
            (Some(s), Some(a), Some(m)) => r.is_ok() && r.unwrap().server_url == s && r.unwrap().agent_id == a
                && r.unwrap().master_key_b64 == m,
            _ => r == Err::<EdgeKey, EdgeKeyError>(EdgeKeyError::InvalidKey),
        },
{
    match (server_url, agent_id, master_key_b64) {
        (Some(s), Some(a), Some(m)) => Ok(EdgeKey { server_url: s, agent_id: a, master_key_b64: m }),
        _ => Err(EdgeKeyError::InvalidKey),
    }
}

} // verus!
