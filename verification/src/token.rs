//! Identity tokens: base64-framed claim payloads and their verification.

use vstd::prelude::*;

use crate::base64::{base64_decode, base64_encode, decode_bytes, encode_chars, Base64Error};
use crate::workload::WorkloadId;
use vstd::string::StringSliceAdditionalSpecFns;

verus! {

broadcast use vstd::string::group_string_axioms;

/// The claims embedded in an identity token.
#[derive(Debug, Clone)]
pub struct TokenClaims {
    pub subject: WorkloadId,
    pub capabilities: Vec<String>,
    pub issued_at_unix_ms: u128,
    pub expires_at_unix_ms: u128,
}

/// An identity token issued to a workload: the raw base64 text of its claim
/// payload, together with the claims it carries.
#[derive(Debug, Clone)]
pub struct IdentityToken {
    raw: String,
    claims: TokenClaims,
}

impl IdentityToken {
    /// The raw representation, as characters.
    pub closed spec fn spec_raw(&self) -> Seq<char> {
        self.raw@
    }

    /// The claims carried by the token.
    pub closed spec fn spec_claims(&self) -> TokenClaims {
        self.claims
    }

    /// Issue a token for `claims`, whose serialized form is `payload`: the raw
    /// representation is the base64 encoding of the payload.
    pub fn issue(claims: TokenClaims, payload: &[u8]) -> (t: IdentityToken)
        ensures
            t.spec_raw() == encode_chars(payload@),
            t.spec_claims() == claims,
    {
        IdentityToken { raw: base64_encode(payload), claims }
    }

    /// The payload bytes framed in a raw token (its base64 decoding).
    pub fn payload(raw: &str) -> (r: Result<Vec<u8>, Base64Error>)
        ensures
            decode_bytes(raw.spec_bytes()) matches Ok(bytes) ==> r matches Ok(v) && v@ == bytes,
            decode_bytes(raw.spec_bytes()) matches Err(e) ==> r == Err::<Vec<u8>, _>(e),
    {
        base64_decode(raw)
    }

    /// A decoded token: the raw text and the claims read from its payload.
    pub fn decoded(raw: &str, claims: TokenClaims) -> (t: IdentityToken)
        ensures
            t.spec_raw() == raw@,
            t.spec_claims() == claims,
    {
        IdentityToken { raw: raw.to_owned(), claims }
    }

    /// The raw representation.
    pub fn raw(&self) -> (r: &str)
        ensures
            r@ == self.spec_raw(),
    {
        self.raw.as_str()
    }

    /// The claims.
    pub fn claims(&self) -> (r: &TokenClaims)
        ensures
            *r == self.spec_claims(),
    {
        &self.claims
    }
}

/// Why a token was refused.
#[derive(Debug)]
pub enum VerificationError {
    Expired,
    NotYetValid,
    DecodeFailed(String),
    SubjectMismatch { expected: String, actual: String },
}

/// Verifies identity tokens against a point in time.
pub struct TokenVerifier;

/// The validity window of the claims holds at `now`.
pub open spec fn valid_at(c: TokenClaims, now: u128) -> bool {
    c.issued_at_unix_ms <= now && now < c.expires_at_unix_ms
}

impl TokenVerifier {
    /// Check a decoded token's validity window at `now_ms`: not yet valid
    /// before its issue time, expired from its expiry time on.
    pub fn verify(token: IdentityToken, now_ms: u128) -> (r: Result<IdentityToken, VerificationError>)
        ensures
            r is Ok <==> valid_at(token.spec_claims(), now_ms),
            r matches Ok(t) ==> t == token,
            r matches Err(e) ==> (now_ms < token.spec_claims().issued_at_unix_ms && e
                is NotYetValid) || (token.spec_claims().issued_at_unix_ms <= now_ms && now_ms
                >= token.spec_claims().expires_at_unix_ms && e is Expired),
    {
        if now_ms < token.claims.issued_at_unix_ms {
            return Err(VerificationError::NotYetValid);
        }
        if now_ms >= token.claims.expires_at_unix_ms {
            return Err(VerificationError::Expired);
        }
        Ok(token)
    }

    /// Verify a decoded token at `now_ms` and require its subject to be `expected`.
    pub fn verify_for(token: IdentityToken, expected: &WorkloadId, now_ms: u128) -> (r: Result<
        IdentityToken,
        VerificationError,
    >)
        ensures
            r is Ok <==> valid_at(token.spec_claims(), now_ms) && token.spec_claims().subject.full()
                == expected.full(),
            r matches Ok(t) ==> t == token,
            r matches Err(VerificationError::SubjectMismatch { expected: x, actual: a }) ==> x@
                == expected.full() && a@ == token.spec_claims().subject.full() && valid_at(
                token.spec_claims(),
                now_ms,
            ),
            r matches Err(e) ==> (e is SubjectMismatch || e is NotYetValid || e is Expired),
            !valid_at(token.spec_claims(), now_ms) ==> (r matches Err(e) && !(e is SubjectMismatch)),
            valid_at(token.spec_claims(), now_ms) && token.spec_claims().subject.full() != expected.full() ==> (r matches Err(
                VerificationError::SubjectMismatch { expected: x, actual: a },
            ) && x@ == expected.full() && a@ == token.spec_claims().subject.full()),
            now_ms < token.spec_claims().issued_at_unix_ms ==> (r matches Err(e) && e is NotYetValid),
            token.spec_claims().issued_at_unix_ms <= now_ms && now_ms >= token.spec_claims().expires_at_unix_ms ==> (r matches Err(e)
                && e is Expired),
    {
        let token = Self::verify(token, now_ms)?;
        let actual = &token.claims.subject;
        let ghost a = actual.full();
        let ghost x = expected.full();
        let same = actual.same_as(expected);
        proof {
            use_type_invariant(actual);
            use_type_invariant(expected);
            if actual.spec_namespace() == expected.spec_namespace() && actual.spec_name()
                == expected.spec_name() {
                assert(a == x);
            }
            if a == x {
                crate::workload::lemma_full_injective(*actual, *expected);
            }
        }
        if !same {
            return Err(
                VerificationError::SubjectMismatch {
                    expected: expected.to_string(),
                    actual: actual.to_string(),
                },
            );
        }
        Ok(token)
    }
}

/// A token's raw text decodes to the payload it was issued from.
pub proof fn law_token_payload_roundtrip(payload: Seq<u8>, raw: &str)
    requires
        raw@ == encode_chars(payload),
    ensures
        decode_bytes(raw.spec_bytes()) == Ok::<Seq<u8>, Base64Error>(payload),
{
    crate::base64::law_encoded_string_bytes(payload, raw);
}

} // verus!
