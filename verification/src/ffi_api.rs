//! Answers to the requests of the foreign function interface.

use vstd::prelude::*;

verus! {

/// What has to be done with a transaction once the full node is connected.
#[derive(Debug)]
pub enum SubmitStep<TSecret> {
    /// Sign the transaction with this key and submit it.
    Submit(TSecret),
    /// Submit nothing, and answer this.
    Reply(String),
}

/// Decides, once the full node is connected, whether a transaction can be submitted: it can where
/// the private key has been decoded.
pub fn submit_transaction<TSecret, TError>(avail_secret: Result<TSecret, TError>) -> (step:
    SubmitStep<TSecret>)
    ensures
        match avail_secret {
            Ok(secret) => step == SubmitStep::Submit(secret),
            Err(_) => step is Reply && step->Reply_0@ == "Secret Key error"@,
        },
{
    match avail_secret {
        Ok(secret) => SubmitStep::Submit(secret),
        Err(_) => SubmitStep::Reply("Secret Key error".to_string()),
    }
}

/// The answer to a transaction that has been submitted: the hash of the transaction, or the root
/// cause of the failure.
pub fn submit_reply(response: Result<String, Option<String>>) -> (reply: String)
    requires
        response is Err ==> response->Err_0 is Some,
    ensures
        reply == match response {
            Ok(hash) => hash,
            Err(cause) => cause->0,
        },
{
    match response {
        Ok(hash) => hash,
        Err(cause) => cause.unwrap(),
    }
}

/// A transaction is submitted with the key that has been decoded. Where no key could be decoded,
/// nothing is submitted, and the answer does not depend on why.
pub proof fn a_decoded_key_is_submitted<TSecret, TError>(
    avail_secret: Result<TSecret, TError>,
    step: SubmitStep<TSecret>,
)
    requires
        call_ensures(submit_transaction::<TSecret, TError>, (avail_secret,), step),
    ensures
        step is Submit <==> avail_secret is Ok,
        avail_secret is Ok ==> step->Submit_0 == avail_secret->Ok_0,
        avail_secret is Err ==> step->Reply_0@ == "Secret Key error"@,
{
}

/// The answer is the hash where the transaction has been submitted, and the root cause where it has
/// not been, and neither is changed.
pub proof fn the_hash_or_the_cause_is_answered(
    response: Result<String, Option<String>>,
    reply: String,
)
    requires
        response is Err ==> response->Err_0 is Some,
        call_ensures(submit_reply, (response,), reply),
    ensures
        response is Ok ==> reply@ == response->Ok_0@,
        response is Err ==> reply@ == response->Err_0->0@,
{
}

} // verus!
