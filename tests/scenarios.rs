use ledger::budget::Application;
use ledger::ledger::{
    AuthorizeAccessRequest, AuthorizeAccessResponse, CreateKeyRequest, DeleteKeyRequest,
    KeyPair, LedgerService, RevokeAccessRequest, RewrapJob, RewrappedKey,
};
use ledger::messages::{
    AccessBudget, AccessBudgetKind, ApplicationMatcher, BlobHeader, DataAccessPolicy,
    PublicKeyDetails, Transform,
};
use ledger::status::{Status, StatusCode};
use ledger::time::{Duration, Timestamp};
use sha2::{Digest, Sha256};

// The same stand-in crypto adapter as in the service tests: re-wrapping fails
// exactly when the unwrap associated data differs from the wrapping one.

fn keypair(seed: u8) -> KeyPair {
    KeyPair { private_key: vec![seed, 1], public_key: vec![seed, 2] }
}

fn rewrap(job: &RewrapJob) -> Option<RewrappedKey> {
    if job.encapsulated_key != job.unwrap_associated_data {
        return None;
    }
    Some(RewrappedKey {
        encapsulated_key: job.wrap_associated_data.clone(),
        encrypted_symmetric_key: job.encrypted_symmetric_key.clone(),
    })
}

fn run(
    ledger: &mut LedgerService,
    request: AuthorizeAccessRequest,
    app: Option<Application>,
) -> Result<AuthorizeAccessResponse, Status> {
    let job = ledger.authorize_access(request, app)?;
    let rewrapped = rewrap(&job);
    ledger.finish_access(&job, rewrapped)
}

fn app(tag: &str) -> Option<Application> {
    Some(Application { tag: tag.to_owned() })
}

fn code<T>(r: Result<T, Status>) -> Option<StatusCode> {
    r.err().map(|e| e.code)
}

fn at(seconds: i64) -> Option<Timestamp> {
    Some(Timestamp { seconds, nanos: 0 })
}

fn new_key(ledger: &mut LedgerService, now: i64, ttl: i64) -> (Vec<u8>, u32) {
    let response = ledger
        .create_key(
            CreateKeyRequest { now: at(now), ttl: Some(Duration { seconds: ttl, nanos: 0 }) },
            keypair(3),
        )
        .unwrap();
    let details = PublicKeyDetails::decode(&response.public_key_details).unwrap();
    (response.public_key, details.public_key_id)
}

fn policy(transforms: Vec<Transform>) -> Vec<u8> {
    DataAccessPolicy { transforms }.encode_to_vec()
}

fn tagged(tag: &str, times: Option<u32>) -> Transform {
    Transform {
        application: Some(ApplicationMatcher { tag: Some(tag.to_owned()) }),
        access_budget: times.map(|n| AccessBudget { kind: Some(AccessBudgetKind::Times(n)) }),
    }
}

fn open(times: Option<u32>) -> Transform {
    Transform {
        application: None,
        access_budget: times.map(|n| AccessBudget { kind: Some(AccessBudgetKind::Times(n)) }),
    }
}

fn header_for(blob_id: &[u8], key_id: u32, access_policy: &[u8]) -> Vec<u8> {
    BlobHeader {
        blob_id: blob_id.to_vec(),
        public_key_id: key_id,
        access_policy_sha256: Sha256::digest(access_policy).to_vec(),
        access_policy_node_id: 0,
    }
    .encode_to_vec()
}

/// A request whose wrapped key was made with `blob_header` as associated data.
fn access(now: Option<Timestamp>, access_policy: &[u8], blob_header: &[u8], nonce: &[u8]) -> AuthorizeAccessRequest {
    AuthorizeAccessRequest {
        now,
        access_policy: access_policy.to_vec(),
        blob_header: blob_header.to_vec(),
        encapsulated_key: blob_header.to_vec(),
        encrypted_symmetric_key: vec![5, 5, 5],
        recipient_public_key: vec![8, 8],
        recipient_attestation: vec![],
        recipient_tag: "tag".to_owned(),
        recipient_nonce: nonce.to_vec(),
    }
}

#[test]
fn happy_path_rewraps_to_the_recipient() {
    let mut ledger = LedgerService::new();
    let (public_key, key_id) = new_key(&mut ledger, 1000, 100);
    let pi = policy(vec![tagged("tag", None)]);
    let h = header_for(b"blob-id", key_id, &pi);
    let response = run(&mut ledger, access(at(1000), &pi, &h, b"nonce"), app("tag")).unwrap();
    assert_eq!(response.reencryption_public_key, public_key);
    assert_eq!(response.encapsulated_key, [&public_key[..], b"nonce"].concat());
    assert_eq!(response.encrypted_symmetric_key, vec![5, 5, 5]);
}

#[test]
fn rewrap_job_carries_the_associated_data() {
    let mut ledger = LedgerService::new();
    let (public_key, key_id) = new_key(&mut ledger, 1000, 100);
    let pi = policy(vec![tagged("tag", None)]);
    let h = header_for(b"blob-id", key_id, &pi);
    let job = ledger.authorize_access(access(at(1000), &pi, &h, b"nonce"), app("tag")).unwrap();
    assert_eq!(job.public_key_id, key_id);
    assert_eq!(job.blob_id, b"blob-id".to_vec());
    assert_eq!(job.transform_index, 0);
    assert_eq!(job.private_key, vec![3, 1]);
    assert_eq!(job.unwrap_associated_data, h);
    assert_eq!(job.wrap_associated_data, [&public_key[..], b"nonce"].concat());
    assert_eq!(job.recipient_public_key, vec![8, 8]);
    assert_eq!(job.policy_hash, Sha256::digest(&pi).to_vec());
}

#[test]
fn policy_tamper_is_refused() {
    let mut ledger = LedgerService::new();
    let (_, key_id) = new_key(&mut ledger, 1000, 100);
    let pi = policy(vec![tagged("tag", None)]);
    let pi_other = policy(vec![open(None)]);
    let h = header_for(b"blob-id", key_id, &pi);
    let r = run(&mut ledger, access(at(1000), &pi_other, &h, b"nonce"), app("tag"));
    let e = r.unwrap_err();
    assert_eq!(e.code, StatusCode::InvalidArgument);
    assert!(e.message.contains("access policy does not match blob header"));
}

#[test]
fn application_mismatch_is_failed_precondition() {
    let mut ledger = LedgerService::new();
    let (_, key_id) = new_key(&mut ledger, 1000, 100);
    let pi = policy(vec![tagged("tag", None)]);
    let h = header_for(b"blob-id", key_id, &pi);
    let r = run(&mut ledger, access(at(1000), &pi, &h, b"nonce"), app("other"));
    assert_eq!(code(r), Some(StatusCode::FailedPrecondition));
}

#[test]
fn budget_of_one_is_exhausted_by_the_second_access() {
    let mut ledger = LedgerService::new();
    let (_, key_id) = new_key(&mut ledger, 1000, 100);
    let pi = policy(vec![open(Some(1))]);
    let h = header_for(b"blob-id", key_id, &pi);
    assert!(run(&mut ledger, access(at(1000), &pi, &h, b"n1"), app("tag")).is_ok());
    let r = run(&mut ledger, access(at(1000), &pi, &h, b"n2"), app("tag"));
    assert_eq!(code(r), Some(StatusCode::ResourceExhausted));
}

#[test]
fn budget_of_three_allows_three_accesses() {
    let mut ledger = LedgerService::new();
    let (_, key_id) = new_key(&mut ledger, 1000, 100);
    let pi = policy(vec![tagged("tag", Some(3))]);
    let h = header_for(b"blob-id", key_id, &pi);
    for _ in 0..3 {
        assert!(run(&mut ledger, access(at(1000), &pi, &h, b"n"), app("tag")).is_ok());
    }
    let r = run(&mut ledger, access(at(1000), &pi, &h, b"n"), app("tag"));
    assert_eq!(code(r), Some(StatusCode::ResourceExhausted));
}

#[test]
fn zero_budget_is_exhausted_at_once() {
    let mut ledger = LedgerService::new();
    let (_, key_id) = new_key(&mut ledger, 1000, 100);
    let pi = policy(vec![open(Some(0))]);
    let h = header_for(b"blob-id", key_id, &pi);
    let r = run(&mut ledger, access(at(1000), &pi, &h, b"n"), app("tag"));
    assert_eq!(code(r), Some(StatusCode::ResourceExhausted));
}

#[test]
fn first_open_transform_is_chosen_then_the_next() {
    let mut ledger = LedgerService::new();
    let (_, key_id) = new_key(&mut ledger, 1000, 100);
    let pi = policy(vec![tagged("other", None), tagged("tag", Some(1)), open(Some(1))]);
    let h = header_for(b"blob-id", key_id, &pi);
    let job1 = ledger.authorize_access(access(at(1000), &pi, &h, b"n"), app("tag")).unwrap();
    assert_eq!(job1.transform_index, 1);
    let rw = rewrap(&job1);
    assert!(ledger.finish_access(&job1, rw).is_ok());
    let job2 = ledger.authorize_access(access(at(1000), &pi, &h, b"n"), app("tag")).unwrap();
    assert_eq!(job2.transform_index, 2);
    let rw = rewrap(&job2);
    assert!(ledger.finish_access(&job2, rw).is_ok());
    let r = run(&mut ledger, access(at(1000), &pi, &h, b"n"), app("tag"));
    assert_eq!(code(r), Some(StatusCode::ResourceExhausted));
}

#[test]
fn budgets_are_kept_per_policy_digest() {
    let mut ledger = LedgerService::new();
    let (_, key_id) = new_key(&mut ledger, 1000, 100);
    let pi1 = policy(vec![open(Some(1))]);
    let pi2 = policy(vec![open(Some(1)), open(None)]);
    let h1 = header_for(b"blob-id", key_id, &pi1);
    let h2 = header_for(b"blob-id", key_id, &pi2);
    assert!(run(&mut ledger, access(at(1000), &pi1, &h1, b"n"), app("tag")).is_ok());
    let job = ledger.authorize_access(access(at(1000), &pi2, &h2, b"n"), app("tag")).unwrap();
    assert_eq!(job.transform_index, 0);
}

#[test]
fn failed_rewrap_consumes_no_budget() {
    let mut ledger = LedgerService::new();
    let (_, key_id) = new_key(&mut ledger, 1000, 100);
    let pi = policy(vec![open(Some(1))]);
    let h = header_for(b"blob-id", key_id, &pi);
    let mut bad = access(at(1000), &pi, &h, b"n");
    bad.encapsulated_key = b"other aad".to_vec();
    let r = run(&mut ledger, bad, app("tag"));
    let e = r.unwrap_err();
    assert_eq!(e.code, StatusCode::InvalidArgument);
    assert!(e.message.contains("failed to re-wrap symmetric key"));
    assert!(run(&mut ledger, access(at(1000), &pi, &h, b"n"), app("tag")).is_ok());
}

#[test]
fn expired_key_is_not_found() {
    let mut ledger = LedgerService::new();
    let (_, key_id) = new_key(&mut ledger, 0, 3600);
    let pi = policy(vec![tagged("tag", None)]);
    let h = header_for(b"blob-id", key_id, &pi);
    let r = run(&mut ledger, access(at(1_000_000_000), &pi, &h, b"n"), app("tag"));
    let e = r.unwrap_err();
    assert_eq!(e.code, StatusCode::NotFound);
    assert!(e.message.contains("public key not found"));
    assert_eq!(
        code(ledger.revoke_access(RevokeAccessRequest { public_key_id: key_id, blob_id: vec![] })),
        Some(StatusCode::NotFound)
    );
}

#[test]
fn key_expires_exactly_at_its_expiration() {
    let mut ledger = LedgerService::new();
    let (_, key_id) = new_key(&mut ledger, 1000, 100);
    let pi = policy(vec![tagged("tag", None)]);
    let h = header_for(b"blob-id", key_id, &pi);
    assert!(run(&mut ledger, access(at(1099), &pi, &h, b"n"), app("tag")).is_ok());
    let r = run(&mut ledger, access(at(1100), &pi, &h, b"n"), app("tag"));
    assert_eq!(code(r), Some(StatusCode::NotFound));
}

#[test]
fn revocation_isolates_the_blob() {
    let mut ledger = LedgerService::new();
    let (_, key_id) = new_key(&mut ledger, 1000, 100);
    assert!(ledger
        .revoke_access(RevokeAccessRequest { public_key_id: key_id, blob_id: b"blob-id".to_vec() })
        .is_ok());
    assert!(ledger
        .revoke_access(RevokeAccessRequest { public_key_id: key_id, blob_id: b"blob-id".to_vec() })
        .is_ok());
    let pi = policy(vec![tagged("tag", None)]);
    let h = header_for(b"blob-id", key_id, &pi);
    let r = run(&mut ledger, access(at(1000), &pi, &h, b"n"), app("tag"));
    assert_eq!(code(r), Some(StatusCode::ResourceExhausted));
    let other_policy = policy(vec![open(None)]);
    let h_other_policy = header_for(b"blob-id", key_id, &other_policy);
    let r = run(&mut ledger, access(at(1000), &other_policy, &h_other_policy, b"n"), app("tag"));
    assert_eq!(code(r), Some(StatusCode::ResourceExhausted));
    let h2 = header_for(b"other-blob-id", key_id, &pi);
    assert!(run(&mut ledger, access(at(1000), &pi, &h2, b"n"), app("tag")).is_ok());
}

#[test]
fn attestation_failure_is_invalid_argument() {
    let mut ledger = LedgerService::new();
    let (_, key_id) = new_key(&mut ledger, 1000, 100);
    let pi = policy(vec![tagged("tag", None)]);
    let h = header_for(b"blob-id", key_id, &pi);
    let r = run(&mut ledger, access(at(1000), &pi, &h, b"n"), None);
    let e = r.unwrap_err();
    assert_eq!(e.code, StatusCode::InvalidArgument);
    assert!(e.message.contains("attestation validation failed"));
}

#[test]
fn deleted_key_is_not_found_everywhere() {
    let mut ledger = LedgerService::new();
    let (_, key_id) = new_key(&mut ledger, 1000, 100);
    assert!(ledger.delete_key(DeleteKeyRequest { public_key_id: key_id }).is_ok());
    let pi = policy(vec![tagged("tag", None)]);
    let h = header_for(b"blob-id", key_id, &pi);
    assert_eq!(
        code(run(&mut ledger, access(at(1000), &pi, &h, b"n"), app("tag"))),
        Some(StatusCode::NotFound)
    );
    assert_eq!(
        code(ledger.revoke_access(RevokeAccessRequest { public_key_id: key_id, blob_id: vec![1] })),
        Some(StatusCode::NotFound)
    );
    assert_eq!(
        code(ledger.delete_key(DeleteKeyRequest { public_key_id: key_id })),
        Some(StatusCode::NotFound)
    );
}

#[test]
fn key_deleted_between_authorize_and_finish_is_not_found() {
    let mut ledger = LedgerService::new();
    let (_, key_id) = new_key(&mut ledger, 1000, 100);
    let pi = policy(vec![tagged("tag", None)]);
    let h = header_for(b"blob-id", key_id, &pi);
    let job = ledger.authorize_access(access(at(1000), &pi, &h, b"n"), app("tag")).unwrap();
    assert!(ledger.delete_key(DeleteKeyRequest { public_key_id: key_id }).is_ok());
    let rw = rewrap(&job);
    assert_eq!(code(ledger.finish_access(&job, rw)), Some(StatusCode::NotFound));
}

#[test]
fn budget_spent_between_authorize_and_finish_is_internal() {
    let mut ledger = LedgerService::new();
    let (_, key_id) = new_key(&mut ledger, 1000, 100);
    let pi = policy(vec![open(Some(1))]);
    let h = header_for(b"blob-id", key_id, &pi);
    let job1 = ledger.authorize_access(access(at(1000), &pi, &h, b"n"), app("tag")).unwrap();
    let job2 = ledger.authorize_access(access(at(1000), &pi, &h, b"n"), app("tag")).unwrap();
    let rw = rewrap(&job1);
    assert!(ledger.finish_access(&job1, rw).is_ok());
    let rw = rewrap(&job2);
    assert_eq!(code(ledger.finish_access(&job2, rw)), Some(StatusCode::Internal));
}

#[test]
fn malformed_times_are_invalid_argument() {
    let mut ledger = LedgerService::new();
    let r = ledger.create_key(
        CreateKeyRequest { now: Some(Timestamp { seconds: -1, nanos: 0 }), ttl: None },
        keypair(1),
    );
    assert_eq!(code(r), Some(StatusCode::InvalidArgument));
    let r = ledger.create_key(
        CreateKeyRequest { now: at(10), ttl: Some(Duration { seconds: -5, nanos: 0 }) },
        keypair(1),
    );
    let e = r.unwrap_err();
    assert_eq!(e.code, StatusCode::InvalidArgument);
    assert!(e.message.contains("`ttl` is invalid"));
    let r = ledger.create_key(
        CreateKeyRequest { now: at(10), ttl: Some(Duration { seconds: 0, nanos: -1 }) },
        keypair(1),
    );
    assert_eq!(code(r), Some(StatusCode::InvalidArgument));
}

#[test]
fn ttl_nanoseconds_carry_into_seconds() {
    let mut ledger = LedgerService::new();
    let response = ledger
        .create_key(
            CreateKeyRequest {
                now: Some(Timestamp { seconds: 1000, nanos: 700_000_000 }),
                ttl: Some(Duration { seconds: 1, nanos: 1_500_000_000 }),
            },
            keypair(1),
        )
        .unwrap();
    let details = PublicKeyDetails::decode(&response.public_key_details).unwrap();
    assert_eq!(details.issued, Some(Timestamp { seconds: 1000, nanos: 700_000_000 }));
    assert_eq!(details.expiration, Some(Timestamp { seconds: 1003, nanos: 200_000_000 }));
    let response = ledger
        .create_key(
            CreateKeyRequest {
                now: Some(Timestamp { seconds: 1000, nanos: 700_000_000 }),
                ttl: Some(Duration { seconds: 2, nanos: -800_000_000 }),
            },
            keypair(2),
        )
        .unwrap();
    let details = PublicKeyDetails::decode(&response.public_key_details).unwrap();
    assert_eq!(details.expiration, Some(Timestamp { seconds: 1001, nanos: 900_000_000 }));
}

#[test]
fn expiration_past_the_wire_range_is_refused() {
    let mut ledger = LedgerService::new();
    let r = ledger.create_key(
        CreateKeyRequest { now: at(i64::MAX), ttl: Some(Duration { seconds: 1, nanos: 0 }) },
        keypair(1),
    );
    let e = r.unwrap_err();
    assert_eq!(e.code, StatusCode::InvalidArgument);
    assert!(e.message.contains("overflowed"));
    let r = ledger.create_key(
        CreateKeyRequest { now: at(i64::MAX), ttl: None },
        keypair(1),
    );
    assert!(r.is_ok());
}

#[test]
fn clock_may_stay_but_not_go_back() {
    let mut ledger = LedgerService::new();
    assert!(ledger.create_key(CreateKeyRequest { now: at(1000), ttl: None }, keypair(1)).is_ok());
    assert!(ledger.create_key(CreateKeyRequest { now: at(1000), ttl: None }, keypair(2)).is_ok());
    let r = ledger.create_key(
        CreateKeyRequest { now: Some(Timestamp { seconds: 999, nanos: 999_999_999 }), ttl: None },
        keypair(3),
    );
    let e = r.unwrap_err();
    assert_eq!(e.code, StatusCode::InvalidArgument);
    assert!(e.message.contains("time must be monotonic"));
}

#[test]
fn invalid_utf8_tag_fails_policy_parsing() {
    let mut ledger = LedgerService::new();
    let (_, key_id) = new_key(&mut ledger, 1000, 100);
    // One transform (field 1) holding a matcher (field 2) whose tag (field 1) is 0xFF.
    let pi = vec![0x0a, 0x05, 0x12, 0x03, 0x0a, 0x01, 0xff];
    let h = header_for(b"blob-id", key_id, &pi);
    let r = run(&mut ledger, access(at(1000), &pi, &h, b"n"), app("tag"));
    let e = r.unwrap_err();
    assert_eq!(e.code, StatusCode::InvalidArgument);
    assert!(e.message.contains("failed to parse access policy"));
}

#[test]
fn created_keys_get_distinct_ids() {
    let mut ledger = LedgerService::new();
    let mut ids = Vec::new();
    for i in 0..20u8 {
        let response = ledger
            .create_key(
                CreateKeyRequest { now: at(5), ttl: Some(Duration { seconds: 60, nanos: 0 }) },
                keypair(i),
            )
            .unwrap();
        let details = PublicKeyDetails::decode(&response.public_key_details).unwrap();
        assert!(!ids.contains(&details.public_key_id));
        ids.push(details.public_key_id);
    }
}

#[test]
fn most_negative_ttl_is_refused_without_panic() {
    let mut ledger = LedgerService::new();
    let r = ledger.create_key(
        CreateKeyRequest { now: at(10), ttl: Some(Duration { seconds: i64::MIN, nanos: 0 }) },
        keypair(1),
    );
    let e = r.unwrap_err();
    assert_eq!(e.code, StatusCode::InvalidArgument);
    assert!(e.message.contains("`ttl` is invalid"));
    let r = ledger.create_key(
        CreateKeyRequest {
            now: at(10),
            ttl: Some(Duration { seconds: i64::MIN, nanos: i32::MIN }),
        },
        keypair(1),
    );
    assert_eq!(code(r), Some(StatusCode::InvalidArgument));
}

#[test]
fn evicted_keys_are_gone_and_others_kept() {
    let mut ledger = LedgerService::new();
    let (_, short) = new_key(&mut ledger, 0, 10);
    let (_, long) = new_key(&mut ledger, 0, 1000);
    assert!(ledger.create_key(CreateKeyRequest { now: at(10), ttl: None }, keypair(9)).is_ok());
    assert_eq!(
        code(ledger.delete_key(DeleteKeyRequest { public_key_id: short })),
        Some(StatusCode::NotFound)
    );
    assert!(ledger.delete_key(DeleteKeyRequest { public_key_id: long }).is_ok());
}

#[test]
fn first_free_draw_is_taken() {
    let mut ledger = LedgerService::new();
    let r = ledger
        .create_key_with_draws(
            CreateKeyRequest { now: at(1000), ttl: Some(Duration { seconds: 100, nanos: 0 }) },
            keypair(1),
            &[5, 6],
        )
        .unwrap();
    let details = PublicKeyDetails::decode(&r.public_key_details).unwrap();
    assert_eq!(details.public_key_id, 5);
    assert_eq!(details.issued, at(1000));
    assert_eq!(details.expiration, at(1100));
    assert!(ledger.has_key(5));
    assert_eq!(ledger.first_free_key_id(&[5, 5, 7]), Some(7));
    assert_eq!(ledger.first_free_key_id(&[5]), None);
    assert_eq!(ledger.first_free_key_id(&[]), None);
    let r = ledger
        .create_key_with_draws(
            CreateKeyRequest { now: at(1000), ttl: Some(Duration { seconds: 100, nanos: 0 }) },
            keypair(2),
            &[5, 6],
        )
        .unwrap();
    let details = PublicKeyDetails::decode(&r.public_key_details).unwrap();
    assert_eq!(details.public_key_id, 6);
    let r = ledger.create_key_with_draws(
        CreateKeyRequest { now: at(1000), ttl: Some(Duration { seconds: 100, nanos: 0 }) },
        keypair(3),
        &[5, 6],
    );
    let e = r.unwrap_err();
    assert_eq!(e.code, StatusCode::Internal);
    assert!(ledger.has_key(6));
    assert!(!ledger.has_key(7));
}

#[test]
fn expired_id_can_be_drawn_again() {
    let mut ledger = LedgerService::new();
    assert!(ledger
        .create_key_with_draws(
            CreateKeyRequest { now: at(0), ttl: Some(Duration { seconds: 10, nanos: 0 }) },
            keypair(1),
            &[9],
        )
        .is_ok());
    assert!(ledger
        .create_key_with_draws(CreateKeyRequest { now: at(10), ttl: None }, keypair(2), &[9])
        .is_ok());
}

#[test]
fn missing_key_and_bad_policy_messages() {
    let mut ledger = LedgerService::new();
    let (_, key_id) = new_key(&mut ledger, 1000, 100);
    let bad = vec![0x0a, 0x01];
    let h = header_for(b"blob-id", key_id, &bad);
    let e = run(&mut ledger, access(at(1000), &bad, &h, b"n"), app("tag")).unwrap_err();
    assert_eq!(e.code, StatusCode::InvalidArgument);
    assert!(e.message.contains("failed to parse access policy"));
    let pi = policy(vec![tagged("tag", None)]);
    let h = header_for(b"blob-id", key_id.wrapping_add(1), &pi);
    let e = run(&mut ledger, access(at(1000), &pi, &h, b"n"), app("tag")).unwrap_err();
    assert_eq!(e.code, StatusCode::NotFound);
    assert!(e.message.contains("public key not found"));
}
