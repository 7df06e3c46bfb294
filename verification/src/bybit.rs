//! Venue-B authentication: an expiring timestamp and an HMAC-SHA256
//! signature over the fixed realtime-channel payload.

use vstd::prelude::*;
use crate::auth::{hex_of, hmac_sha256, hmac_sha256_of};
use crate::text::{dec_chars, u64_to_dec};

verus! {

broadcast use vstd::string::group_string_axioms;

pub struct BybitAuth {
    pub api_key: String,
    pub secret: String,
}

/// The signed payload for an expiry time: the realtime-channel constant
/// followed by the expiry in decimal.
pub open spec fn bybit_sign_payload(expires: int) -> Seq<char> {
    "GET/realtime"@ + dec_chars(expires as nat)
}

/// The venue-B authentication signature for an expiry time.
pub open spec fn bybit_signature(secret: Seq<char>, expires: int) -> Seq<char> {
    hex_of(
        hmac_sha256_of(
            vstd::utf8::encode_utf8(secret),
            vstd::utf8::encode_utf8(bybit_sign_payload(expires)),
        ),
    )
}

/// The authentication frame, ready for transport encoding: the fixed
/// operation name with key, expiry and signature.
pub struct BybitAuthMsg {
    pub op: String,
    pub api_key: String,
    pub expires: i64,
    pub signature: String,
}

impl BybitAuth {
    pub fn new(api_key: String, secret: String) -> (r: BybitAuth)
        ensures
            r.api_key == api_key,
            r.secret == secret,
    {
        BybitAuth { api_key, secret }
    }

    /// The expiry attached to an authentication attempt: a kilosecond
    /// past the caller-supplied wall clock, since the venue requires it
    /// to lie in the future.
    pub fn expires(&self, now_ms: i64) -> (r: i64)
        requires
            now_ms <= i64::MAX - 1000,
        ensures
            r == now_ms + 1000,
    {
        now_ms + 1000
    }

    /// Signs the realtime-channel payload for the given expiry.
    pub fn sign(&self, expires: i64) -> (r: String)
        requires
            expires >= 0,
        ensures
            r@ == bybit_signature(self.secret@, expires as int),
    {
        let mut payload = String::from_str("GET/realtime");
        payload.append(u64_to_dec(expires as u64).as_str());
        let tag = hmac_sha256(self.secret.as_str().as_bytes(), payload.as_str().as_bytes());
        crate::auth::bytes_to_hex(&tag)
    }

    /// Builds the authentication frame for the caller-supplied wall
    /// clock.
    pub fn auth_msg(&self, now_ms: i64) -> (r: BybitAuthMsg)
        requires
            0 <= now_ms <= i64::MAX - 1000,
        ensures
            r.op@ == "auth"@,
            r.api_key@ == self.api_key@,
            r.expires == now_ms + 1000,
            r.signature@ == bybit_signature(self.secret@, now_ms + 1000),
    {
        let expires = self.expires(now_ms);
        let sig = self.sign(expires);
        BybitAuthMsg {
            op: String::from_str("auth"),
            api_key: self.api_key.clone(),
            expires,
            signature: sig,
        }
    }
}

} // verus!
