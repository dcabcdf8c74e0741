//! The node's fee estimate, and handing a signed transaction to it.
use vstd::prelude::*;

use crate::bytes;
use crate::json::{object_1, Json, JsonView};
use crate::rpc::{
    self, hex_field, post_result, post_uri_result, DaemonRpc, Fault, Request, RequestView,
    RpcError,
};
use crate::text::same_text;

verus! {

/// A rate to pay fees at: piconeros per weight, rounded up to a multiple of the mask.
#[derive(Clone, Copy, Debug, PartialEq, Eq, Structural)]
pub struct Fees {
    pub per_weight: u64,
    pub mask: u64,
}

/// The rate for an estimate. The daemon estimates per kB, and a kB weighs 2048;
/// at least one piconero is paid per weight.
pub open spec fn rate_for(per_kb: u64) -> Fees {
    Fees {
        per_weight: if per_kb / 2048 == 0 {
            1
        } else {
            per_kb / 2048
        },
        mask: 2048,
    }
}

/// The rate in a reply.
pub open spec fn fee_rate_in(reply: JsonView) -> Result<Fees, Fault> {
    match rpc::rpc_result("get_fee_estimate"@, reply) {
        Err(f) => Err(f),
        Ok(res) => match res.at("fee"@).number() {
            None => Err(Fault::InvalidFee),
            Some(per_kb) => Ok(rate_for(per_kb)),
        },
    }
}

/// The rate in a reply, where it is no higher than a bound.
pub open spec fn bounded_fee_rate_in(reply: JsonView, max_per_weight: u64) -> Result<Fees, Fault> {
    match fee_rate_in(reply) {
        Err(f) => Err(f),
        Ok(rate) => if rate.per_weight > max_per_weight {
            Err(Fault::InvalidFee)
        } else {
            Ok(rate)
        },
    }
}

/// The request that hands a transaction to the daemon.
pub open spec fn publish_call(url: Seq<char>, blob: Seq<u8>) -> RequestView {
    rpc::uri_call(
        url,
        "/send_raw_transaction"@,
        JsonView::Object(seq![("tx_as_hex"@, JsonView::Str(bytes::hex_text(blob)))]),
    )
}

/// Whether the daemon took a transaction, and why not.
pub open spec fn published_in(reply: JsonView) -> Result<(), Fault> {
    match rpc::uri_result("/send_raw_transaction"@, reply) {
        Err(f) => Err(f),
        Ok(res) => if res.at("status"@).text() == Some("OK"@) {
            Ok(())
        } else {
            Err(
                Fault::Rejected {
                    status: res.at("status"@).text(),
                    reason: res.at("reason"@),
                },
            )
        },
    }
}

/// The highest rate per weight that is paid without question.
pub const MAX_PER_WEIGHT: u64 = 10_000;

impl DaemonRpc {
    /// Asks for an estimate of the fee.
    pub fn fee_rate_request(&self) -> (r: Request)
        ensures
            r@ == rpc::rpc_call(
                self.url@,
                "get_fee_estimate"@,
                JsonView::Object(seq![("grace_blocks"@, JsonView::Number(10))]),
            ),
    {
        self.post("get_fee_estimate", object_1("grace_blocks", Json::Number(10)))
    }

    /// get_fee_estimate → the rate to pay fees at.
    pub fn fee_rate(reply: &Json) -> (r: Result<Fees, RpcError>)
        ensures
            match r {
                Ok(rate) => fee_rate_in(reply@) == Ok::<Fees, Fault>(rate),
                Err(e) => fee_rate_in(reply@) == Err::<Fees, Fault>(e@),
            },
    {
        match post_result("get_fee_estimate", reply) {
            Err(e) => Err(e),
            Ok(res) => match res.u64_at("fee") {
                None => Err(RpcError::InvalidFee),
                Some(per_kb) => {
                    let estimate: u64 = per_kb / 2048;
                    let per_weight: u64 = if estimate == 0 {
                        1
                    } else {
                        estimate
                    };
                    Ok(Fees { per_weight, mask: 2048 })
                },
            },
        }
    }

    /// get_fee_estimate → the rate to pay fees at, refused where it is above a bound.
    pub fn bounded_fee_rate(reply: &Json, max_per_weight: u64) -> (r: Result<Fees, RpcError>)
        ensures
            match r {
                Ok(rate) => bounded_fee_rate_in(reply@, max_per_weight) == Ok::<Fees, Fault>(rate),
                Err(e) => bounded_fee_rate_in(reply@, max_per_weight) == Err::<Fees, Fault>(e@),
            },
    {
        match DaemonRpc::fee_rate(reply) {
            Err(e) => Err(e),
            Ok(rate) => {
                if rate.per_weight > max_per_weight {
                    Err(RpcError::InvalidFee)
                } else {
                    Ok(rate)
                }
            },
        }
    }

    /// Hands a serialized transaction to the daemon.
    pub fn publish_transaction_request(&self, blob: &[u8]) -> (r: Request)
        ensures
            r@ == publish_call(self.url@, blob@),
    {
        self.post_uri("/send_raw_transaction", hex_field("tx_as_hex", blob))
    }

    /// send_raw_transaction → whether the daemon took the transaction.
    pub fn publish_transaction(reply: &Json) -> (r: Result<(), RpcError>)
        ensures
            match r {
                Ok(_) => published_in(reply@) == Ok::<(), Fault>(()),
                Err(e) => published_in(reply@) == Err::<(), Fault>(e@),
            },
    {
        let res: &Json = match post_uri_result("/send_raw_transaction", reply) {
            Err(e) => {
                return Err(e);
            },
            Ok(res) => res,
        };
        let status: Option<&str> = res.str_at("status");
        match status {
            Some(s) => {
                if same_text(s, "OK") {
                    return Ok(());
                }
            },
            None => {},
        }
        let reason: Json = match res.get("reason") {
            Some(v) => v.copy(),
            None => Json::Null,
        };
        Err(
            RpcError::Rejected {
                status: match status {
                    Some(s) => Some(s.to_owned()),
                    None => None,
                },
                reason,
            },
        )
    }
}

/// Every rate pays at least one piconero per weight, and no more than was estimated
/// where the estimate itself is that much.
pub proof fn law_rate_is_payable(per_kb: u64)
    ensures
        rate_for(per_kb).per_weight >= 1,
        rate_for(per_kb).mask >= 1,
        per_kb >= 2048 ==> rate_for(per_kb).per_weight * 2048 <= per_kb,
{
}

} // verus!
