use rsa::{BigUint, PaddingScheme, RSAPrivateKey};
use sha2::{Digest, Sha256};
use wallet_service_mirror::crypto::{load_public_key, PublicKey};
use wallet_service_mirror::messages::{PendingRequest, PendingResponse, QueryRequest, QueryResponse};
use wallet_service_mirror::relay::{
    answer_encrypted_request, answer_unencrypted_request, encrypted_response, parse_failure,
    process_encrypted_request, process_unencrypted_request, response_or_failure, screen_method,
    screen_signed, screen_validated, RelayAgent, Screening,
};
use wallet_service_mirror::validator::{
    is_supported_endpoint, supported_endpoint, validate_method, SUPPORTED_ENDPOINT_COUNT,
};

const MODULUS: &str = "a49351102ade9346e3a38933d14b147d047e53e5b1d38d429696b45f5b573147f59e2a4a8ee8c43556e56dcd39558ddfcc80a8270552494ebfacfc6b9306fb1799d4d16bd44a76aec0a2fcee9d452aba8afafaa3bb8cb68bfdf4c4a165be6ae33238980553535f0b1a85c32bab9ae9cf428d88680fb2c65fcea29d8aa122377b";
const PRIVATE_EXPONENT: &str = "170a44c405ac6963f84491d5be4c4b8f010d0a83d2b472474b3bc7febd93e46355a091fd242ab4255f87f92a4d078c3833b223586b274cfa085d986d1b05542b8d346b3b309c917154f0990bcee279eddc72789e2d2c090aeefa26156db0c699af5e22bed044f5831ee38584a179c76c6e20799aeb17b90dd02783979ab8c959";
const PRIME_ONE: &str = "d01e84a244ed650fb5e16a626dcb6065ce0dbd4f7d09bbed5a937e79567a32c31642e1b1e390b080fc5f2d0d89495030ed7229708bc2a43ebeb4708e92eb24dd";
const PRIME_TWO: &str = "ca7039e179f10f1ce597bf7555f1cd39303547cd5825c7d6cddf4e25f2050367e6d6eee993897d2dc7783028eea92fdd4aac9b9d5848137737ae74702587bc37";

const MIRROR_PEM: &str = "-----BEGIN PUBLIC KEY-----
MIGfMA0GCSqGSIb3DQEBAQUAA4GNADCBiQKBgQCkk1EQKt6TRuOjiTPRSxR9BH5T
5bHTjUKWlrRfW1cxR/WeKkqO6MQ1VuVtzTlVjd/MgKgnBVJJTr+s/GuTBvsXmdTR
a9RKdq7AovzunUUquor6+qO7jLaL/fTEoWW+auMyOJgFU1NfCxqFwyurmunPQo2I
aA+yxl/Oop2KoSI3ewIDAQAB
-----END PUBLIC KEY-----
";

const GET_BLOCK: &[u8] = b"{\"method\":\"get_block\",\"params\":{\"block_index\":\"3\"}}";

fn number(hex_digits: &str) -> BigUint {
    BigUint::parse_bytes(hex_digits.as_bytes(), 16).unwrap()
}

fn client_key() -> RSAPrivateKey {
    RSAPrivateKey::from_components(
        number(MODULUS),
        BigUint::from(65537u32),
        number(PRIVATE_EXPONENT),
        vec![number(PRIME_ONE), number(PRIME_TWO)],
    )
}

fn mirror_key() -> PublicKey {
    load_public_key("mirror.pem", MIRROR_PEM).unwrap()
}

fn signed(body: &[u8]) -> QueryRequest {
    let digest = Sha256::digest(body);
    let signature = client_key()
        .sign(PaddingScheme::new_pkcs1v15_sign(Some(rsa::Hash::SHA2_256)), &digest)
        .unwrap();
    QueryRequest::Signed {
        body: body.to_vec(),
        signature,
    }
}

fn unsigned(body: &[u8]) -> QueryRequest {
    QueryRequest::Unsigned {
        body: body.to_vec(),
    }
}

fn refused(reason: &str) -> Screening {
    Screening::Settled {
        outcome: Err(reason.to_owned()),
    }
}

fn failure(message: &str) -> QueryResponse {
    QueryResponse::Failure {
        message: message.to_owned(),
    }
}

fn decrypt(ciphertext: &[u8]) -> Vec<u8> {
    let key = client_key();
    let mut payload = Vec::new();
    for block in ciphertext.chunks(128) {
        let piece = key
            .decrypt(PaddingScheme::new_oaep::<Sha256>(), block)
            .unwrap();
        payload.extend_from_slice(&piece);
    }
    payload
}

#[test]
fn the_allow_list_has_its_21_operations() {
    assert_eq!(SUPPORTED_ENDPOINT_COUNT, 21);
    let expected = [
        "check_receiver_receive_status",
        "create_payment_request",
        "get_account",
        "get_account_status",
        "get_address_for_account",
        "get_all_accounts",
        "get_all_addresses_for_account",
        "get_all_transaction_logs_for_account",
        "get_all_transaction_logs_for_block",
        "get_all_transaction_logs_ordered_by_block",
        "get_balance_for_account",
        "get_balance_for_address",
        "get_block",
        "get_confirmations",
        "get_network_status",
        "get_transaction_log",
        "get_transaction_logs_for_account",
        "get_transaction_object",
        "get_txo_object",
        "validate_confirmation",
        "verify_address",
    ];
    for (i, name) in expected.iter().enumerate() {
        assert_eq!(supported_endpoint(i), *name);
        assert!(is_supported_endpoint(name));
    }
}

#[test]
fn operations_off_the_allow_list_are_not_supported() {
    for name in ["", "get_blocks", "get_bloc", "GET_BLOCK", "build_transaction", "submit_transaction", "remove_account", " get_block"] {
        assert!(!is_supported_endpoint(name), "{:?}", name);
    }
}

#[test]
fn validate_method_reads_the_method_of_a_request() {
    assert_eq!(validate_method(GET_BLOCK).unwrap(), true);
    assert_eq!(
        validate_method(b"{\"method\": \"get_all_accounts\"}").unwrap(),
        true
    );
    assert_eq!(
        validate_method(b"{\"method\":\"export_account_secrets\"}").unwrap(),
        false
    );
}

#[test]
fn validate_method_takes_a_missing_method_for_the_empty_name() {
    assert_eq!(validate_method(b"{}").unwrap(), false);
    assert_eq!(validate_method(b"{\"method\":7}").unwrap(), false);
    assert_eq!(validate_method(b"{\"method\":null}").unwrap(), false);
    assert_eq!(validate_method(b"[\"get_block\"]").unwrap(), false);
    assert_eq!(validate_method(b"\"get_block\"").unwrap(), false);
    assert_eq!(
        validate_method(b"{\"params\":{\"method\":\"get_block\"}}").unwrap(),
        false
    );
}

#[test]
fn validate_method_gives_the_parsers_error() {
    let err = validate_method(b"{\"method\":").unwrap_err();
    assert_eq!(
        err.to_string(),
        "EOF while parsing a value at line 1 column 10"
    );
    assert!(validate_method(b"").is_err());
    assert!(validate_method(b"{\"method\":\"get_block\"} x").is_err());
    assert!(validate_method(&[0xff, 0xfe]).is_err());
}

#[test]
fn parse_failure_says_what_the_parser_said() {
    assert_eq!(
        parse_failure("expected value at line 1 column 1"),
        failure("Error parsing JSON request: expected value at line 1 column 1")
    );
}

#[test]
fn an_unsigned_request_for_an_allowed_operation_is_forwarded() {
    assert_eq!(
        process_unencrypted_request(&unsigned(GET_BLOCK)),
        Screening::Forward {
            body: GET_BLOCK.to_vec()
        }
    );
}

#[test]
fn an_unsigned_request_for_another_operation_is_refused() {
    assert_eq!(
        process_unencrypted_request(&unsigned(b"{\"method\":\"remove_account\"}")),
        refused("Unsupported request")
    );
    assert_eq!(
        process_unencrypted_request(&unsigned(b"{}")),
        refused("Unsupported request")
    );
}

#[test]
fn an_unsigned_request_that_is_no_json_is_answered_with_a_failure() {
    let expected = serde_json::from_slice::<serde_json::Value>(b"get_block")
        .unwrap_err()
        .to_string();
    assert_eq!(
        process_unencrypted_request(&unsigned(b"get_block")),
        Screening::Settled {
            outcome: Ok(failure(&format!("Error parsing JSON request: {}", expected)))
        }
    );
    assert_eq!(
        process_unencrypted_request(&unsigned(b"")),
        Screening::Settled {
            outcome: Ok(failure(
                "Error parsing JSON request: EOF while parsing a value at line 1 column 0"
            ))
        }
    );
}

#[test]
fn a_relay_without_a_key_refuses_signed_requests() {
    assert_eq!(
        process_unencrypted_request(&signed(GET_BLOCK)),
        refused("Only processing unsigned requests")
    );
}

#[test]
fn a_relay_with_a_key_refuses_unsigned_requests() {
    assert_eq!(
        process_encrypted_request(&mirror_key(), &unsigned(GET_BLOCK)),
        refused("Only processing signed requests")
    );
}

#[test]
fn a_signed_request_for_an_allowed_operation_is_forwarded() {
    assert_eq!(
        process_encrypted_request(&mirror_key(), &signed(GET_BLOCK)),
        Screening::Forward {
            body: GET_BLOCK.to_vec()
        }
    );
}

#[test]
fn a_tampered_signature_is_answered_with_a_failure() {
    let request = match signed(GET_BLOCK) {
        QueryRequest::Signed {
            body,
            mut signature,
        } => {
            signature[0] ^= 1;
            QueryRequest::Signed { body, signature }
        }
        other => other,
    };
    assert_eq!(
        process_encrypted_request(&mirror_key(), &request),
        Screening::Settled {
            outcome: Ok(failure("Signature verification failed"))
        }
    );
}

#[test]
fn a_tampered_body_is_answered_with_a_failure_before_the_allow_list_sees_it() {
    let request = match signed(GET_BLOCK) {
        QueryRequest::Signed { signature, .. } => QueryRequest::Signed {
            body: b"{\"method\":\"remove_account\"}".to_vec(),
            signature,
        },
        other => other,
    };
    assert_eq!(
        process_encrypted_request(&mirror_key(), &request),
        Screening::Settled {
            outcome: Ok(failure("Signature verification failed"))
        }
    );
}

#[test]
fn a_signed_request_for_another_operation_is_refused() {
    assert_eq!(
        process_encrypted_request(&mirror_key(), &signed(b"{\"method\":\"remove_account\"}")),
        refused("Unsupported request")
    );
}

#[test]
fn a_signed_request_that_is_no_json_is_answered_with_a_failure() {
    assert_eq!(
        process_encrypted_request(&mirror_key(), &signed(b"[1,")),
        Screening::Settled {
            outcome: Ok(failure(
                "Error parsing JSON request: EOF while parsing a value at line 1 column 3"
            ))
        }
    );
}

#[test]
fn the_backends_reply_to_an_unsigned_request_goes_back_as_it_is() {
    assert_eq!(
        answer_unencrypted_request(Ok(b"{\"result\":1}".to_vec())),
        Ok(QueryResponse::PlainResult {
            body: b"{\"result\":1}".to_vec()
        })
    );
    assert_eq!(
        answer_unencrypted_request(Err("connection refused".to_owned())),
        Err("connection refused".to_owned())
    );
}

#[test]
fn the_backends_reply_to_a_signed_request_goes_back_encrypted() {
    let reply: Vec<u8> = (0..300).map(|i| (i % 251) as u8).collect();
    match answer_encrypted_request(&mirror_key(), Ok(reply.clone())) {
        Ok(QueryResponse::EncryptedResult { ciphertext }) => {
            assert_eq!(ciphertext.len(), 5 * 128);
            assert_eq!(decrypt(&ciphertext), reply);
        }
        other => panic!("{:?}", other),
    }
    assert_eq!(
        answer_encrypted_request(&mirror_key(), Err("timeout".to_owned())),
        Err("timeout".to_owned())
    );
}

#[test]
fn a_key_that_cannot_encrypt_gives_encryption_failed() {
    let mut key = mirror_key();
    key.exponent = vec![1];
    assert_eq!(
        answer_encrypted_request(&key, Ok(b"reply".to_vec())),
        Err("Encryption failed".to_owned())
    );
}

#[test]
fn an_error_becomes_a_failure_response() {
    assert_eq!(
        response_or_failure(Err("Unsupported request".to_owned())),
        failure("Unsupported request")
    );
    assert_eq!(
        response_or_failure(Ok(QueryResponse::PlainResult { body: vec![1] })),
        QueryResponse::PlainResult { body: vec![1] }
    );
}

#[test]
fn the_relay_keeps_its_answers_until_a_poll_goes_through() {
    let mut agent = RelayAgent::new(None);
    assert!(agent.pending_responses().is_empty());
    agent.record_response(
        "3".to_owned(),
        Ok(QueryResponse::PlainResult {
            body: b"three".to_vec(),
        }),
    );
    agent.record_response("4".to_owned(), Err("Unsupported request".to_owned()));
    let expected = vec![
        PendingResponse {
            id: "3".to_owned(),
            response: QueryResponse::PlainResult {
                body: b"three".to_vec(),
            },
        },
        PendingResponse {
            id: "4".to_owned(),
            response: failure("Unsupported request"),
        },
    ];
    assert_eq!(agent.begin_poll(), expected);

    // The poll fails: nothing changes, no request counts as received.
    let received = agent.poll_completed(Err("transport failure".to_owned()));
    assert!(received.is_empty());
    assert_eq!(agent.pending_responses(), expected);

    // The next poll goes through: it carried the same answers, and now they
    // are delivered.
    assert_eq!(agent.begin_poll(), expected);
    let batch = vec![PendingRequest {
        id: "5".to_owned(),
        request: unsigned(GET_BLOCK),
    }];
    let received = agent.poll_completed(Ok(batch.clone()));
    assert_eq!(received, batch);
    assert!(agent.pending_responses().is_empty());
}

#[test]
fn a_second_answer_under_one_id_replaces_the_first() {
    let mut agent = RelayAgent::new(None);
    agent.record_response("a".to_owned(), Err("one".to_owned()));
    agent.record_response("b".to_owned(), Err("two".to_owned()));
    agent.record_response("a".to_owned(), Err("three".to_owned()));
    assert_eq!(
        agent.pending_responses(),
        vec![
            PendingResponse {
                id: "b".to_owned(),
                response: failure("two")
            },
            PendingResponse {
                id: "a".to_owned(),
                response: failure("three")
            },
        ]
    );
}

#[test]
fn an_answer_recorded_while_a_poll_is_under_way_waits_for_the_next_poll() {
    let mut agent = RelayAgent::new(None);
    agent.record_response("1".to_owned(), Err("one".to_owned()));
    agent.record_response("2".to_owned(), Err("two".to_owned()));
    let carried = agent.begin_poll();
    assert_eq!(carried.len(), 2);
    // A slow backend call ends only now, and an answer that is on its way
    // is replaced.
    agent.record_response("3".to_owned(), Err("three".to_owned()));
    agent.record_response("1".to_owned(), Err("one again".to_owned()));
    agent.poll_completed(Ok(Vec::new()));
    assert_eq!(
        agent.pending_responses(),
        vec![
            PendingResponse {
                id: "3".to_owned(),
                response: failure("three")
            },
            PendingResponse {
                id: "1".to_owned(),
                response: failure("one again")
            },
        ]
    );
    assert_eq!(agent.begin_poll().len(), 2);
    agent.poll_completed(Ok(Vec::new()));
    assert!(agent.pending_responses().is_empty());
}

#[test]
fn a_poll_that_ends_without_having_begun_delivers_nothing() {
    let mut agent = RelayAgent::new(None);
    agent.record_response("1".to_owned(), Err("one".to_owned()));
    agent.poll_completed(Ok(Vec::new()));
    assert_eq!(agent.pending_responses().len(), 1);
}

#[test]
fn a_relay_without_a_key_works_on_unsigned_requests() {
    let agent = RelayAgent::new(None);
    assert_eq!(
        agent.process_request(&unsigned(GET_BLOCK)),
        Screening::Forward {
            body: GET_BLOCK.to_vec()
        }
    );
    assert_eq!(
        agent.process_request(&signed(GET_BLOCK)),
        refused("Only processing unsigned requests")
    );
    assert_eq!(
        agent.answer_request(Ok(b"ok".to_vec())),
        Ok(QueryResponse::PlainResult {
            body: b"ok".to_vec()
        })
    );
}

#[test]
fn a_relay_with_a_key_works_on_signed_requests() {
    let agent = RelayAgent::new(Some(mirror_key()));
    assert_eq!(
        agent.process_request(&signed(GET_BLOCK)),
        Screening::Forward {
            body: GET_BLOCK.to_vec()
        }
    );
    assert_eq!(
        agent.process_request(&unsigned(GET_BLOCK)),
        refused("Only processing signed requests")
    );
    match agent.answer_request(Ok(b"ok".to_vec())) {
        Ok(QueryResponse::EncryptedResult { ciphertext }) => {
            assert_eq!(decrypt(&ciphertext), b"ok".to_vec())
        }
        other => panic!("{:?}", other),
    }
}

#[test]
fn a_signed_request_with_a_tampered_signature_fails_end_to_end() {
    let mut agent = RelayAgent::new(Some(mirror_key()));
    let request = match signed(GET_BLOCK) {
        QueryRequest::Signed {
            body,
            mut signature,
        } => {
            signature[100] = signature[100].wrapping_add(1);
            QueryRequest::Signed { body, signature }
        }
        other => other,
    };
    let received = agent.poll_completed(Ok(vec![PendingRequest {
        id: "0".to_owned(),
        request,
    }]));
    for entry in received {
        match agent.process_request(&entry.request) {
            Screening::Forward { .. } => panic!("the backend must not see this request"),
            Screening::Settled { outcome } => agent.record_response(entry.id, outcome),
        }
    }
    assert_eq!(
        agent.pending_responses(),
        vec![PendingResponse {
            id: "0".to_owned(),
            response: failure("Signature verification failed")
        }]
    );
}

/// One cycle of the relay against a backend that counts its calls.
fn run_cycle(agent: &mut RelayAgent, batch: Vec<PendingRequest>, calls: &mut Vec<Vec<u8>>) {
    for entry in agent.poll_completed(Ok(batch)) {
        let outcome = match agent.process_request(&entry.request) {
            Screening::Forward { body } => {
                calls.push(body);
                agent.answer_request(Ok(b"{\"result\":true}".to_vec()))
            }
            Screening::Settled { outcome } => outcome,
        };
        agent.record_response(entry.id, outcome);
    }
}

#[test]
fn a_request_off_the_allow_list_never_reaches_the_backend() {
    let mut agent = RelayAgent::new(None);
    let mut calls = Vec::new();
    let batch = vec![
        PendingRequest {
            id: "0".to_owned(),
            request: unsigned(b"{\"method\":\"remove_account\"}"),
        },
        PendingRequest {
            id: "1".to_owned(),
            request: unsigned(GET_BLOCK),
        },
        PendingRequest {
            id: "2".to_owned(),
            request: unsigned(b"{\"method\":\"build_and_submit_transaction\"}"),
        },
    ];
    run_cycle(&mut agent, batch, &mut calls);
    assert_eq!(calls, vec![GET_BLOCK.to_vec()]);
    assert_eq!(
        agent.pending_responses(),
        vec![
            PendingResponse {
                id: "0".to_owned(),
                response: failure("Unsupported request")
            },
            PendingResponse {
                id: "1".to_owned(),
                response: QueryResponse::PlainResult {
                    body: b"{\"result\":true}".to_vec()
                }
            },
            PendingResponse {
                id: "2".to_owned(),
                response: failure("Unsupported request")
            },
        ]
    );
}

#[test]
fn a_signed_request_off_the_allow_list_never_reaches_the_backend() {
    let mut agent = RelayAgent::new(Some(mirror_key()));
    let mut calls = Vec::new();
    let batch = vec![PendingRequest {
        id: "0".to_owned(),
        request: signed(b"{\"method\":\"export_account_secrets\"}"),
    }];
    run_cycle(&mut agent, batch, &mut calls);
    assert!(calls.is_empty());
    assert_eq!(
        agent.pending_responses(),
        vec![PendingResponse {
            id: "0".to_owned(),
            response: failure("Unsupported request")
        }]
    );
}

#[test]
fn answers_computed_before_a_failed_poll_go_out_unchanged_with_the_next() {
    let mut agent = RelayAgent::new(None);
    let mut calls = Vec::new();
    let batch = vec![PendingRequest {
        id: "8".to_owned(),
        request: unsigned(GET_BLOCK),
    }];
    run_cycle(&mut agent, batch, &mut calls);
    let first_attempt = agent.begin_poll();
    assert_eq!(first_attempt.len(), 1);
    // The poll that carried them fails.
    assert!(agent
        .poll_completed(Err("transport failure".to_owned()))
        .is_empty());
    // The next poll carries the very same answers.
    let second_attempt = agent.begin_poll();
    assert_eq!(second_attempt, first_attempt);
    // It goes through, and only now are they dropped.
    agent.poll_completed(Ok(Vec::new()));
    assert!(agent.pending_responses().is_empty());
    assert_eq!(calls.len(), 1);
}

#[test]
fn screening_follows_what_the_allow_list_said() {
    let body = GET_BLOCK.to_vec();
    assert_eq!(
        screen_validated(&body, Ok(true)),
        Screening::Forward { body: body.clone() }
    );
    assert_eq!(
        screen_validated(&body, Ok(false)),
        refused("Unsupported request")
    );
    assert_eq!(
        screen_validated(&body, Err("expected value at line 1 column 1".to_owned())),
        Screening::Settled {
            outcome: Ok(failure(
                "Error parsing JSON request: expected value at line 1 column 1"
            ))
        }
    );
    assert_eq!(screen_method(&body), Screening::Forward { body });
}

#[test]
fn a_signature_that_does_not_hold_stops_the_request() {
    let allowed = GET_BLOCK.to_vec();
    assert_eq!(
        screen_signed(false, &allowed),
        Screening::Settled {
            outcome: Ok(failure("Signature verification failed"))
        }
    );
    assert_eq!(
        screen_signed(true, &allowed),
        Screening::Forward {
            body: allowed.clone()
        }
    );
    assert_eq!(
        screen_signed(true, &b"{}".to_vec()),
        refused("Unsupported request")
    );
}

#[test]
fn the_outcome_of_encryption_becomes_the_outcome_of_the_request() {
    assert_eq!(
        encrypted_response(Ok(vec![1, 2, 3])),
        Ok(QueryResponse::EncryptedResult {
            ciphertext: vec![1, 2, 3]
        })
    );
    assert_eq!(
        encrypted_response(Err("encrypt failed: MessageTooLong".to_owned())),
        Err("Encryption failed".to_owned())
    );
}
