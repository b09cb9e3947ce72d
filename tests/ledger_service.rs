use ledger::budget::Application;
use ledger::ledger::{
    AuthorizeAccessRequest, AuthorizeAccessResponse, CreateKeyRequest, DeleteKeyRequest,
    DeleteKeyResponse, KeyPair, LedgerService, RevokeAccessRequest, RevokeAccessResponse,
    RewrapJob, RewrappedKey,
};
use ledger::messages::{
    AccessBudget, AccessBudgetKind, ApplicationMatcher, BlobHeader, DataAccessPolicy,
    PublicKeyDetails, Transform,
};
use ledger::status::{Status, StatusCode};
use ledger::time::{Duration, Timestamp};
use sha2::{Digest, Sha256};

// A stand-in for the crypto adapter. A "wrapped" symmetric key is the key itself,
// with the associated data it was wrapped with kept as the encapsulated key, so a
// re-wrap fails exactly when the unwrap associated data differs.

fn gen_keypair(seed: u8) -> KeyPair {
    KeyPair { private_key: vec![seed, 1], public_key: vec![seed, 2] }
}

fn encrypt_message(plaintext: &[u8], associated_data: &[u8]) -> (Vec<u8>, Vec<u8>, Vec<u8>) {
    let symmetric_key = vec![7u8, 7, 7];
    let ciphertext: Vec<u8> = plaintext.iter().map(|b| b ^ 7).collect();
    (ciphertext, associated_data.to_vec(), symmetric_key)
}

fn rewrap_symmetric_key(job: &RewrapJob) -> Option<RewrappedKey> {
    if job.encapsulated_key != job.unwrap_associated_data {
        return None;
    }
    Some(RewrappedKey {
        encapsulated_key: job.wrap_associated_data.clone(),
        encrypted_symmetric_key: job.encrypted_symmetric_key.clone(),
    })
}

fn decrypt_message(
    ciphertext: &[u8],
    encrypted_symmetric_key: &[u8],
    associated_data: &[u8],
    encapsulated_key: &[u8],
) -> Option<Vec<u8>> {
    if associated_data != encapsulated_key || encrypted_symmetric_key != [7u8, 7, 7] {
        return None;
    }
    Some(ciphertext.iter().map(|b| b ^ 7).collect())
}

/// Runs a full access: authorize, re-wrap with the stand-in adapter, record.
fn authorize(
    ledger: &mut LedgerService,
    request: AuthorizeAccessRequest,
) -> Result<AuthorizeAccessResponse, Status> {
    let app = Some(Application { tag: request.recipient_tag.clone() });
    let job = ledger.authorize_access(request, app)?;
    let rewrapped = rewrap_symmetric_key(&job);
    ledger.finish_access(&job, rewrapped)
}

fn assert_err<T: std::fmt::Debug>(result: Result<T, Status>, code: StatusCode, substr: &str) {
    match result {
        Ok(v) => panic!("expected an error, got {:?}", v),
        Err(e) => {
            assert_eq!(e.code, code, "{:?}", e);
            assert!(e.message.contains(substr), "{:?}", e);
        }
    }
}

fn seconds(s: i64) -> Option<Timestamp> {
    Some(Timestamp { seconds: s, nanos: 0 })
}

fn tag_policy(tag: &str) -> Vec<u8> {
    DataAccessPolicy {
        transforms: vec![Transform {
            application: Some(ApplicationMatcher { tag: Some(tag.to_owned()) }),
            access_budget: None,
        }],
    }
    .encode_to_vec()
}

fn header(blob_id: &[u8], public_key_id: u32, access_policy_sha256: Vec<u8>) -> Vec<u8> {
    BlobHeader {
        blob_id: blob_id.to_vec(),
        public_key_id,
        access_policy_sha256,
        access_policy_node_id: 0,
    }
    .encode_to_vec()
}

fn create_ledger_service() -> (LedgerService, Vec<u8>, u32) {
    let mut ledger = LedgerService::new();
    let response = ledger
        .create_key(
            CreateKeyRequest { now: None, ttl: Some(Duration { seconds: 3600, nanos: 0 }) },
            gen_keypair(1),
        )
        .unwrap();
    let details = PublicKeyDetails::decode(&response.public_key_details).unwrap();
    (ledger, response.public_key, details.public_key_id)
}

fn request(
    access_policy: Vec<u8>,
    blob_header: Vec<u8>,
    encapsulated_key: Vec<u8>,
    encrypted_symmetric_key: Vec<u8>,
    tag: &str,
    nonce: &[u8],
) -> AuthorizeAccessRequest {
    AuthorizeAccessRequest {
        access_policy,
        blob_header,
        encapsulated_key,
        encrypted_symmetric_key,
        recipient_public_key: vec![9, 9],
        recipient_tag: tag.to_owned(),
        recipient_nonce: nonce.to_vec(),
        ..Default::default()
    }
}

#[test]
fn test_create_key() {
    let mut ledger = LedgerService::new();
    let response1 = ledger
        .create_key(
            CreateKeyRequest {
                now: seconds(1000),
                ttl: Some(Duration { seconds: 100, nanos: 0 }),
            },
            gen_keypair(1),
        )
        .unwrap();
    let details1 = PublicKeyDetails::decode(&response1.public_key_details).unwrap();

    assert_eq!(response1.attestation, Vec::<u8>::new());
    assert_eq!(details1.issued, seconds(1000));
    assert_eq!(details1.expiration, seconds(1100));

    let response2 = ledger
        .create_key(
            CreateKeyRequest {
                now: seconds(1000),
                ttl: Some(Duration { seconds: 100, nanos: 0 }),
            },
            gen_keypair(2),
        )
        .unwrap();
    let details2 = PublicKeyDetails::decode(&response2.public_key_details).unwrap();

    assert_ne!(response1.public_key, response2.public_key);
    assert_ne!(details1.public_key_id, details2.public_key_id);
}

#[test]
fn test_delete_key() {
    let (mut ledger, _, public_key_id) = create_ledger_service();
    assert_eq!(
        ledger.delete_key(DeleteKeyRequest { public_key_id }),
        Ok(DeleteKeyResponse::default())
    );
    assert_err(
        ledger.delete_key(DeleteKeyRequest { public_key_id }),
        StatusCode::NotFound,
        "public key not found",
    );
}

#[test]
fn test_delete_key_not_found() {
    let (mut ledger, _, public_key_id) = create_ledger_service();
    assert_err(
        ledger.delete_key(DeleteKeyRequest { public_key_id: public_key_id.wrapping_add(1) }),
        StatusCode::NotFound,
        "public key not found",
    );
}

#[test]
fn test_authorize_access() {
    let (mut ledger, public_key, public_key_id) = create_ledger_service();
    let access_policy = tag_policy("tag");
    let plaintext = b"plaintext";
    let blob_header =
        header(b"blob-id", public_key_id, Sha256::digest(&access_policy).to_vec());
    let (ciphertext, encapsulated_key, encrypted_symmetric_key) =
        encrypt_message(plaintext, &blob_header);

    let recipient_nonce: &[u8] = b"nonce";
    let response = authorize(
        &mut ledger,
        request(
            access_policy,
            blob_header.clone(),
            encapsulated_key,
            encrypted_symmetric_key,
            "tag",
            recipient_nonce,
        ),
    )
    .unwrap();

    assert_eq!(response.reencryption_public_key, public_key);
    assert_eq!(
        decrypt_message(
            &ciphertext,
            &response.encrypted_symmetric_key,
            &[&response.reencryption_public_key[..], recipient_nonce].concat(),
            &response.encapsulated_key,
        )
        .unwrap(),
        plaintext
    );
}

#[test]
fn test_authorize_access_invalid_header() {
    let (mut ledger, _, public_key_id) = create_ledger_service();
    let access_policy = tag_policy("tag");
    let blob_header =
        header(b"blob-id", public_key_id, Sha256::digest(&access_policy).to_vec());
    let (_, encapsulated_key, encrypted_symmetric_key) =
        encrypt_message(b"plaintext", &blob_header);
    assert_err(
        authorize(
            &mut ledger,
            request(
                access_policy,
                b"invalid".to_vec(),
                encapsulated_key,
                encrypted_symmetric_key,
                "tag",
                b"nonce",
            ),
        ),
        StatusCode::InvalidArgument,
        "failed to parse blob header",
    );
}

#[test]
fn test_authorize_access_invalid_access_policy_sha256() {
    let (mut ledger, _, public_key_id) = create_ledger_service();
    let access_policy = tag_policy("tag");
    let blob_header = header(b"blob-id", public_key_id, b"invalid".to_vec());
    let (_, encapsulated_key, encrypted_symmetric_key) =
        encrypt_message(b"plaintext", &blob_header);
    assert_err(
        authorize(
            &mut ledger,
            request(
                access_policy,
                blob_header,
                encapsulated_key,
                encrypted_symmetric_key,
                "tag",
                b"nonce",
            ),
        ),
        StatusCode::InvalidArgument,
        "access policy does not match blob header",
    );
}

#[test]
fn test_authorize_access_invalid_access_policy() {
    let (mut ledger, _, public_key_id) = create_ledger_service();
    let access_policy = b"invalid";
    let blob_header = header(b"blob-id", public_key_id, Sha256::digest(access_policy).to_vec());
    let (_, encapsulated_key, encrypted_symmetric_key) =
        encrypt_message(b"plaintext", &blob_header);
    assert_err(
        authorize(
            &mut ledger,
            request(
                access_policy.to_vec(),
                blob_header,
                encapsulated_key,
                encrypted_symmetric_key,
                "tag",
                b"nonce",
            ),
        ),
        StatusCode::InvalidArgument,
        "failed to parse access policy",
    );
}

#[test]
fn test_authorize_access_application_mismatch() {
    let (mut ledger, _, public_key_id) = create_ledger_service();
    let access_policy = DataAccessPolicy { transforms: vec![] }.encode_to_vec();
    let blob_header =
        header(b"blob-id", public_key_id, Sha256::digest(&access_policy).to_vec());
    let (_, encapsulated_key, encrypted_symmetric_key) =
        encrypt_message(b"plaintext", &blob_header);
    assert_err(
        authorize(
            &mut ledger,
            request(
                access_policy,
                blob_header,
                encapsulated_key,
                encrypted_symmetric_key,
                "non-matching-tag",
                b"nonce",
            ),
        ),
        StatusCode::FailedPrecondition,
        "",
    );
}

#[test]
fn test_authorize_access_decryption_error() {
    let (mut ledger, _, public_key_id) = create_ledger_service();
    let access_policy = tag_policy("tag");
    let blob_header =
        header(b"blob-id", public_key_id, Sha256::digest(&access_policy).to_vec());
    let (_, encapsulated_key, encrypted_symmetric_key) =
        encrypt_message(b"plaintext", b"other aad");
    assert_err(
        authorize(
            &mut ledger,
            request(
                access_policy,
                blob_header,
                encapsulated_key,
                encrypted_symmetric_key,
                "tag",
                b"nonce",
            ),
        ),
        StatusCode::InvalidArgument,
        "failed to re-wrap symmetric key",
    );
}

#[test]
fn test_authorize_access_missing_key_id() {
    let (mut ledger, _, public_key_id) = create_ledger_service();
    let access_policy = tag_policy("tag");
    let blob_header = header(
        b"blob-id",
        public_key_id.wrapping_add(1),
        Sha256::digest(&access_policy).to_vec(),
    );
    let (_, encapsulated_key, encrypted_symmetric_key) =
        encrypt_message(b"plaintext", &blob_header);
    assert_err(
        authorize(
            &mut ledger,
            request(
                access_policy,
                blob_header,
                encapsulated_key,
                encrypted_symmetric_key,
                "tag",
                b"nonce",
            ),
        ),
        StatusCode::NotFound,
        "public key not found",
    );
}

#[test]
fn test_authorize_access_expired_key() {
    let (mut ledger, _, public_key_id) = create_ledger_service();
    let access_policy = tag_policy("tag");
    let blob_header =
        header(b"blob-id", public_key_id, Sha256::digest(&access_policy).to_vec());
    let (_, encapsulated_key, encrypted_symmetric_key) =
        encrypt_message(b"plaintext", &blob_header);
    let mut req = request(
        access_policy,
        blob_header,
        encapsulated_key,
        encrypted_symmetric_key,
        "tag",
        b"nonce",
    );
    req.now = seconds(1_000_000_000);
    assert_err(authorize(&mut ledger, req), StatusCode::NotFound, "public key not found");
}

#[test]
fn test_authorize_access_updates_budget() {
    let (mut ledger, _, public_key_id) = create_ledger_service();
    let access_policy = DataAccessPolicy {
        transforms: vec![Transform {
            application: None,
            access_budget: Some(AccessBudget { kind: Some(AccessBudgetKind::Times(1)) }),
        }],
    }
    .encode_to_vec();
    let blob_header =
        header(b"blob-id", public_key_id, Sha256::digest(&access_policy).to_vec());
    let (_, encapsulated_key, encrypted_symmetric_key) =
        encrypt_message(b"plaintext", &blob_header);

    assert!(authorize(
        &mut ledger,
        request(
            access_policy.clone(),
            blob_header.clone(),
            encapsulated_key.clone(),
            encrypted_symmetric_key.clone(),
            "tag",
            b"nonce1",
        ),
    )
    .is_ok());

    assert_err(
        authorize(
            &mut ledger,
            request(
                access_policy,
                blob_header,
                encapsulated_key,
                encrypted_symmetric_key,
                "tag",
                b"nonce2",
            ),
        ),
        StatusCode::ResourceExhausted,
        "",
    );
}

#[test]
fn test_revoke_access() {
    let (mut ledger, _, public_key_id) = create_ledger_service();
    let blob_id = b"blob-id";
    assert_eq!(
        ledger.revoke_access(RevokeAccessRequest { public_key_id, blob_id: blob_id.to_vec() }),
        Ok(RevokeAccessResponse::default())
    );

    let access_policy = DataAccessPolicy {
        transforms: vec![Transform { application: None, access_budget: None }],
    }
    .encode_to_vec();
    let blob_header = header(blob_id, public_key_id, Sha256::digest(&access_policy).to_vec());
    let (_, encapsulated_key, encrypted_symmetric_key) =
        encrypt_message(b"plaintext", &blob_header);
    assert_err(
        authorize(
            &mut ledger,
            request(
                access_policy,
                blob_header,
                encapsulated_key,
                encrypted_symmetric_key,
                "tag",
                b"nonce",
            ),
        ),
        StatusCode::ResourceExhausted,
        "",
    );
}

#[test]
fn test_revoke_access_key_not_found() {
    let (mut ledger, _, public_key_id) = create_ledger_service();
    assert_err(
        ledger.revoke_access(RevokeAccessRequest {
            public_key_id: public_key_id.wrapping_add(1),
            blob_id: b"blob-id".to_vec(),
        }),
        StatusCode::NotFound,
        "public key not found",
    );
}

#[test]
fn test_monotonic_time() {
    let mut ledger = LedgerService::new();
    ledger
        .create_key(CreateKeyRequest { now: seconds(1000), ttl: None }, gen_keypair(1))
        .unwrap();

    assert_err(
        ledger.create_key(CreateKeyRequest { now: seconds(500), ttl: None }, gen_keypair(2)),
        StatusCode::InvalidArgument,
        "time must be monotonic",
    );
    assert_err(
        authorize(
            &mut ledger,
            AuthorizeAccessRequest { now: seconds(500), ..Default::default() },
        ),
        StatusCode::InvalidArgument,
        "time must be monotonic",
    );
}
