use optimistic_sync::ffi_api::{submit_reply, submit_transaction, SubmitStep};

#[test]
fn a_decoded_key_lets_the_transaction_be_submitted() {
    match submit_transaction::<u8, ()>(Ok(5)) {
        SubmitStep::Submit(secret) => assert_eq!(secret, 5),
        SubmitStep::Reply(_) => panic!("the key is valid"),
    }
}

#[test]
fn a_bad_key_is_answered() {
    match submit_transaction::<u8, ()>(Err(())) {
        SubmitStep::Submit(_) => panic!("the key is not valid"),
        SubmitStep::Reply(reply) => assert_eq!(reply, "Secret Key error"),
    }
}

#[test]
fn a_submission_is_answered_by_its_hash() {
    assert_eq!(submit_reply(Ok("0x12".to_string())), "0x12");
}

#[test]
fn a_failed_submission_is_answered_by_its_root_cause() {
    assert_eq!(submit_reply(Err(Some("no funds".to_string()))), "no funds");
}
