use llmos::base64::{base64_decode, base64_encode};
use llmos::policy::{subject_matches, validate_subject};
use llmos::token::{IdentityToken, TokenClaims, TokenVerifier, VerificationError};
use llmos::workload::{WorkloadId, WorkloadIdError};

const NOW: u128 = 1_750_000_000_000;

fn valid_claims() -> TokenClaims {
    TokenClaims {
        subject: WorkloadId::parse("runtime/model-runtime").unwrap(),
        capabilities: vec!["network:egress".to_string()],
        issued_at_unix_ms: NOW - 1_000,
        expires_at_unix_ms: NOW + 60_000,
    }
}

fn issued(claims: TokenClaims) -> IdentityToken {
    let payload = format!(
        "{{\"subject\":\"{}\",\"issued_at_unix_ms\":{},\"expires_at_unix_ms\":{}}}",
        claims.subject.to_string(),
        claims.issued_at_unix_ms,
        claims.expires_at_unix_ms
    );
    IdentityToken::issue(claims, payload.as_bytes())
}

#[test]
fn workload_id_parse_valid() {
    let id = WorkloadId::parse("runtime/model-runtime").unwrap();
    assert_eq!(id.namespace(), "runtime");
    assert_eq!(id.name(), "model-runtime");
    assert_eq!(id.to_string(), "runtime/model-runtime");
}

#[test]
fn workload_id_parse_rejects_missing_slash() {
    assert!(WorkloadId::parse("no-slash").is_err());
}

#[test]
fn workload_id_parse_rejects_empty_segments() {
    assert!(WorkloadId::parse("/name").is_err());
    assert!(WorkloadId::parse("namespace/").is_err());
}

#[test]
fn workload_id_parse_rejects_uppercase() {
    assert!(WorkloadId::parse("Runtime/Model").is_err());
}

#[test]
fn workload_id_errors_name_their_kind() {
    assert!(matches!(WorkloadId::parse("no-slash"), Err(WorkloadIdError::InvalidFormat(_))));
    assert!(matches!(WorkloadId::parse("a/b/c"), Err(WorkloadIdError::InvalidCharacters(_))));
    assert!(matches!(WorkloadId::parse("a/"), Err(WorkloadIdError::InvalidFormat(_))));
    assert!(matches!(WorkloadId::parse("Runtime/Model"), Err(WorkloadIdError::InvalidCharacters(_))));
    assert!(matches!(WorkloadId::parse("run time/x"), Err(WorkloadIdError::InvalidCharacters(_))));
}

#[test]
fn workload_id_roundtrips_through_text() {
    let id = WorkloadId::parse("security/audit-log_2").unwrap();
    let again = WorkloadId::parse(&id.to_string()).unwrap();
    assert!(id.same_as(&again));
    assert_eq!(again.to_string(), "security/audit-log_2");
}

#[test]
fn token_roundtrip() {
    let claims = valid_claims();
    let token = issued(claims.clone());
    let payload = IdentityToken::payload(token.raw()).unwrap();
    let decoded = IdentityToken::decoded(token.raw(), token.claims().clone());
    assert_eq!(decoded.claims().subject, claims.subject);
    assert_eq!(decoded.claims().capabilities, claims.capabilities);
    assert!(String::from_utf8(payload).unwrap().contains("runtime/model-runtime"));
}

#[test]
fn token_raw_is_base64_of_payload() {
    let token = IdentityToken::issue(valid_claims(), b"abc");
    assert_eq!(token.raw(), "YWJj");
    assert_eq!(IdentityToken::payload("YWJj").unwrap(), b"abc".to_vec());
    assert!(IdentityToken::payload("Y").is_err());
}

#[test]
fn verify_valid_token() {
    let token = issued(valid_claims());
    let verified = TokenVerifier::verify(token, NOW).unwrap();
    assert_eq!(
        verified.claims().subject,
        WorkloadId::parse("runtime/model-runtime").unwrap()
    );
}

#[test]
fn verify_expired_token() {
    let claims = TokenClaims {
        subject: WorkloadId::parse("runtime/model-runtime").unwrap(),
        capabilities: vec![],
        issued_at_unix_ms: NOW - 120_000,
        expires_at_unix_ms: NOW - 60_000,
    };
    let token = issued(claims);
    let err = TokenVerifier::verify(token, NOW).unwrap_err();
    assert!(matches!(err, VerificationError::Expired));
}

#[test]
fn verify_not_yet_valid_token() {
    let token = issued(valid_claims());
    let err = TokenVerifier::verify(token, NOW - 5_000).unwrap_err();
    assert!(matches!(err, VerificationError::NotYetValid));
}

#[test]
fn verify_window_edges() {
    let token = issued(valid_claims());
    assert!(TokenVerifier::verify(token.clone(), NOW - 1_000).is_ok());
    assert!(matches!(
        TokenVerifier::verify(token, NOW + 60_000),
        Err(VerificationError::Expired)
    ));
}

#[test]
fn verify_for_wrong_subject() {
    let token = issued(valid_claims());
    let wrong = WorkloadId::parse("runtime/mcp-runtime").unwrap();
    let err = TokenVerifier::verify_for(token, &wrong, NOW).unwrap_err();
    match err {
        VerificationError::SubjectMismatch { expected, actual } => {
            assert_eq!(expected, "runtime/mcp-runtime");
            assert_eq!(actual, "runtime/model-runtime");
        }
        other => panic!("unexpected error {other:?}"),
    }
}

#[test]
fn verify_for_correct_subject() {
    let token = issued(valid_claims());
    let expected = WorkloadId::parse("runtime/model-runtime").unwrap();
    TokenVerifier::verify_for(token, &expected, NOW).unwrap();
}

#[test]
fn base64_known_values() {
    assert_eq!(base64_encode(b""), "");
    assert_eq!(base64_encode(b"f"), "Zg==");
    assert_eq!(base64_encode(b"fo"), "Zm8=");
    assert_eq!(base64_encode(b"foo"), "Zm9v");
    assert_eq!(base64_encode(b"foobar"), "Zm9vYmFy");
    assert_eq!(base64_decode("Zm9vYmFy").unwrap(), b"foobar".to_vec());
    assert_eq!(base64_decode("Zg==").unwrap(), b"f".to_vec());
}

#[test]
fn base64_roundtrip_all_bytes() {
    let data: Vec<u8> = (0u8..=255).collect();
    let enc = base64_encode(&data);
    assert_eq!(base64_decode(&enc).unwrap(), data);
}

#[test]
fn base64_rejects_bad_input() {
    assert!(base64_decode("abc").is_err());
    assert!(base64_decode("ab!d").is_err());
}

#[test]
fn validate_valid_subject() {
    let id = validate_subject("runtime/model-runtime").unwrap();
    assert_eq!(id.namespace(), "runtime");
    assert_eq!(id.name(), "model-runtime");
}

#[test]
fn validate_invalid_subject() {
    assert!(validate_subject("no-slash").is_err());
}

#[test]
fn exact_match() {
    assert!(subject_matches("runtime/model-runtime", "runtime/model-runtime"));
    assert!(!subject_matches("runtime/model-runtime", "runtime/mcp-runtime"));
}

#[test]
fn wildcard_star_matches_everything() {
    assert!(subject_matches("*", "runtime/model-runtime"));
    assert!(subject_matches("*", "security/audit"));
}

#[test]
fn namespace_wildcard_matches_same_namespace() {
    assert!(subject_matches("runtime/*", "runtime/model-runtime"));
    assert!(subject_matches("runtime/*", "runtime/mcp-runtime"));
    assert!(!subject_matches("runtime/*", "security/audit"));
}

#[test]
fn backward_compatible_with_raw_strings() {
    assert!(subject_matches("runtime/*", "runtime/something"));
}
