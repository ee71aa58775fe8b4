//! The allow-list: which backend operations the relay forwards.

use crate::bindings::{json_method, parse_json_method};
use vstd::prelude::*;

verus! {

/// How many operations the relay forwards.
pub const SUPPORTED_ENDPOINT_COUNT: usize = 21;

/// The names of the operations that the relay forwards to the backend.
pub open spec fn supported_endpoints() -> Seq<Seq<char>> {
    seq![
        "check_receiver_receive_status"@,
        "create_payment_request"@,
        "get_account"@,
        "get_account_status"@,
        "get_address_for_account"@,
        "get_all_accounts"@,
        "get_all_addresses_for_account"@,
        "get_all_transaction_logs_for_account"@,
        "get_all_transaction_logs_for_block"@,
        "get_all_transaction_logs_ordered_by_block"@,
        "get_balance_for_account"@,
        "get_balance_for_address"@,
        "get_block"@,
        "get_confirmations"@,
        "get_network_status"@,
        "get_transaction_log"@,
        "get_transaction_logs_for_account"@,
        "get_transaction_object"@,
        "get_txo_object"@,
        "validate_confirmation"@,
        "verify_address"@,
    ]
}

/// Whether `method` names an operation on the allow-list.
pub open spec fn is_supported(method: Seq<char>) -> bool {
    exists|i: int| 0 <= i < supported_endpoints().len() && supported_endpoints()[i] == method
}

/// The operation that a request names: the text under `method`, or the empty
/// name where the request has none.
pub open spec fn method_name(method: Option<Seq<char>>) -> Seq<char> {
    match method {
        Some(name) => name,
        None => Seq::empty(),
    }
}

/// The `i`-th name on the allow-list.
pub fn supported_endpoint(i: usize) -> (r: &'static str)
    requires
        i < SUPPORTED_ENDPOINT_COUNT,
    ensures
        r@ == supported_endpoints()[i as int],
{
    match i {
        0 => "check_receiver_receive_status",
        1 => "create_payment_request",
        2 => "get_account",
        3 => "get_account_status",
        4 => "get_address_for_account",
        5 => "get_all_accounts",
        6 => "get_all_addresses_for_account",
        7 => "get_all_transaction_logs_for_account",
        8 => "get_all_transaction_logs_for_block",
        9 => "get_all_transaction_logs_ordered_by_block",
        10 => "get_balance_for_account",
        11 => "get_balance_for_address",
        12 => "get_block",
        13 => "get_confirmations",
        14 => "get_network_status",
        15 => "get_transaction_log",
        16 => "get_transaction_logs_for_account",
        17 => "get_transaction_object",
        18 => "get_txo_object",
        19 => "validate_confirmation",
        _ => "verify_address",
    }
}

/// Whether `method` names an operation that the relay forwards.
pub fn is_supported_endpoint(method: &str) -> (r: bool)
    ensures
        r == is_supported(method@),
{
    let wanted: String = method.to_owned();
    let mut i: usize = 0;
    while i < SUPPORTED_ENDPOINT_COUNT
        invariant
            i <= SUPPORTED_ENDPOINT_COUNT,
            wanted@ == method@,
            supported_endpoints().len() == SUPPORTED_ENDPOINT_COUNT,
            forall|k: int| 0 <= k < i ==> supported_endpoints()[k] != method@,
        decreases SUPPORTED_ENDPOINT_COUNT - i,
    {
        let candidate: String = supported_endpoint(i).to_owned();
        if candidate == wanted {
            return true;
        }
        i += 1;
    }
    false
}

/// Whether the JSON request `json` names an operation on the allow-list.
/// A request that is no JSON document gives the parser's error.
pub fn validate_method(json: &[u8]) -> (r: Result<bool, serde_json::Error>)
    ensures
        match r {
            Ok(allowed) => json_method(json@) matches Some(method) && allowed == is_supported(
                method_name(method),
            ),
            Err(_) => json_method(json@) is None,
        },
{
    match parse_json_method(json) {
        Ok(Some(name)) => Ok(is_supported_endpoint(name.as_str())),
        Ok(None) => {
            proof {
                reveal_strlit("");
                assert(""@ =~= Seq::<char>::empty());
            }
            Ok(is_supported_endpoint(""))
        },
        Err(err) => Err(err),
    }
}

} // verus!
