//! The outputs that rings are made of: what the daemon tells of them.
use vstd::prelude::*;

use crate::bytes::{self, bytes_32, decode_hex};
use crate::chain::{self, point_from_32};
use crate::json::{self, object_1, object_2, Json, JsonView};
use crate::list;
use crate::rpc::{self, each_of, post_uri_result, DaemonRpc, Fault, Request, RequestView, RpcError};

verus! {

/// An output as the daemon hands it out, before its keys are read as points.
pub struct OutInfo {
    pub key: Vec<u8>,
    pub mask: Vec<u8>,
    pub unlocked: bool,
    pub txid: Vec<u8>,
}

/// What such an output says.
pub struct OutInfoView {
    pub key: Seq<u8>,
    pub mask: Seq<u8>,
    pub unlocked: bool,
    pub txid: Seq<u8>,
}

impl View for OutInfo {
    type V = OutInfoView;

    open spec fn view(&self) -> OutInfoView {
        OutInfoView {
            key: self.key@,
            mask: self.mask@,
            unlocked: self.unlocked,
            txid: self.txid@,
        }
    }
}

/// An output by which a ring may be formed: its key, its commitment, and the
/// transaction that made it. The number of its block is not told.
pub struct RingCtOutput {
    pub unlocked: bool,
    pub key: [u8; 32],
    pub commitment: [u8; 32],
    pub transaction: [u8; 32],
}

/// What such an output says.
pub struct RingCtOutputView {
    pub unlocked: bool,
    pub key: Seq<u8>,
    pub commitment: Seq<u8>,
    pub transaction: Seq<u8>,
}

impl View for RingCtOutput {
    type V = RingCtOutputView;

    open spec fn view(&self) -> RingCtOutputView {
        RingCtOutputView {
            unlocked: self.unlocked,
            key: self.key@,
            commitment: self.commitment@,
            transaction: self.transaction@,
        }
    }
}

/// The key and the commitment of an output, or nothing while it is locked.
pub struct UnlockedOutput {
    pub points: Option<([u8; 32], [u8; 32])>,
}

impl View for UnlockedOutput {
    type V = Option<(Seq<u8>, Seq<u8>)>;

    open spec fn view(&self) -> Option<(Seq<u8>, Seq<u8>)> {
        match self.points {
            Some(p) => Some((p.0@, p.1@)),
            None => None,
        }
    }
}

/// What is asked of one output.
pub open spec fn out_asked(index: u64) -> JsonView {
    JsonView::Object(seq![("index"@, JsonView::Number(index)), ("txid"@, JsonView::Bool(true))])
}

/// The request for some outputs.
pub open spec fn outs_call(url: Seq<char>, indexes: Seq<u64>) -> RequestView {
    rpc::uri_call(
        url,
        "/get_outs"@,
        JsonView::Object(
            seq![("outputs"@, JsonView::Array(indexes.map_values(|i: u64| out_asked(i))))],
        ),
    )
}

/// Whether an output is unlocked; it is unless the daemon says otherwise.
pub open spec fn unlocked_in(o: JsonView) -> bool {
    match o.at("unlocked"@).truth() {
        Some(b) => b,
        None => true,
    }
}

/// The bytes of three hexadecimal texts, or the fault of the first that holds none.
pub open spec fn out_bytes(
    key: Seq<char>,
    mask: Seq<char>,
    unlocked: bool,
    txid: Seq<char>,
) -> Result<OutInfoView, Fault> {
    match bytes::hex_decoded_text(key) {
        Err(e) => Err(Fault::KeyHex(e)),
        Ok(key) => match bytes::hex_decoded_text(mask) {
            Err(e) => Err(Fault::MaskHex(e)),
            Ok(mask) => match bytes::hex_decoded_text(txid) {
                Err(e) => Err(Fault::TxidHex(e)),
                Ok(txid) => Ok(OutInfoView { key, mask, unlocked, txid }),
            },
        },
    }
}

/// One output of a reply.
pub open spec fn out_in(o: JsonView) -> Result<OutInfoView, Fault> {
    match (o.at("key"@).text(), o.at("mask"@).text(), o.at("txid"@).text()) {
        (None, _, _) => Err(Fault::NoKey),
        (Some(_), None, _) => Err(Fault::NoMask),
        (Some(_), Some(_), None) => Err(Fault::NoTxid),
        (Some(key), Some(mask), Some(txid)) => out_bytes(key, mask, unlocked_in(o), txid),
    }
}

/// [`out_in`] as a function.
pub open spec fn out_fn() -> spec_fn(JsonView) -> Result<OutInfoView, Fault> {
    |o: JsonView| out_in(o)
}

/// The outputs in a reply, one for each index that was asked for, in order. For
/// no indexes there is nothing to ask.
pub open spec fn outs_in(indexes: Seq<u64>, reply: Option<JsonView>) -> Result<
    Seq<OutInfoView>,
    Fault,
> {
    if indexes.len() == 0 {
        Ok(Seq::empty())
    } else {
        match reply {
            None => Err(Fault::NoOuts),
            Some(reply) => match rpc::uri_result("/get_outs"@, reply) {
                Err(f) => Err(f),
                Ok(res) => match res.at("outs"@).elements() {
                    None => Err(Fault::NoOuts),
                    Some(outs) => if outs.len() != indexes.len() {
                        Err(Fault::OutCount)
                    } else {
                        list::each(outs, out_fn())
                    },
                },
            },
        }
    }
}

/// An output with its keys read as points.
pub open spec fn ringct_fn() -> spec_fn(OutInfoView) -> Result<RingCtOutputView, Fault> {
    |o: OutInfoView|
        match chain::point_of(o.key) {
            Err(e) => Err(Fault::Point(e)),
            Ok(key) => match chain::point_of(o.mask) {
                Err(e) => Err(Fault::Point(e)),
                Ok(commitment) => if o.txid.len() == 32 {
                    Ok(
                        RingCtOutputView {
                            unlocked: o.unlocked,
                            key,
                            commitment,
                            transaction: o.txid,
                        },
                    )
                } else {
                    Err(Fault::TxidLength)
                },
            },
        }
}

/// The points of an output that is unlocked. Those of a locked one are not looked at.
pub open spec fn unlocked_fn() -> spec_fn(OutInfoView) -> Result<
    Option<(Seq<u8>, Seq<u8>)>,
    Fault,
> {
    |o: OutInfoView|
        if !o.unlocked {
            Ok(None)
        } else {
            match chain::point_of(o.key) {
                Err(e) => Err(Fault::Point(e)),
                Ok(key) => match chain::point_of(o.mask) {
                    Err(e) => Err(Fault::Point(e)),
                    Ok(commitment) => Ok(Some((key, commitment))),
                },
            }
        }
}

/// One output of a reply.
fn out(o: &Json) -> (r: Result<OutInfo, RpcError>)
    ensures
        rpc::says(r, out_fn()(o@)),
{
    let key_hex: &str = match o.str_at("key") {
        None => {
            return Err(RpcError::NoKey);
        },
        Some(s) => s,
    };
    let mask_hex: &str = match o.str_at("mask") {
        None => {
            return Err(RpcError::NoMask);
        },
        Some(s) => s,
    };
    let unlocked: bool = match o.get("unlocked") {
        None => true,
        Some(v) => match v.as_bool() {
            None => true,
            Some(b) => b,
        },
    };
    let txid_hex: &str = match o.str_at("txid") {
        None => {
            return Err(RpcError::NoTxid);
        },
        Some(s) => s,
    };
    match decode_hex(key_hex) {
        Err(e) => Err(RpcError::KeyHex(e)),
        Ok(key) => match decode_hex(mask_hex) {
            Err(e) => Err(RpcError::MaskHex(e)),
            Ok(mask) => match decode_hex(txid_hex) {
                Err(e) => Err(RpcError::TxidHex(e)),
                Ok(txid) => Ok(OutInfo { key, mask, unlocked, txid }),
            },
        },
    }
}

/// Reads the keys of an output as points.
pub fn ringct_output(o: &OutInfo) -> (r: Result<RingCtOutput, RpcError>)
    ensures
        rpc::says(r, ringct_fn()(o@)),
        r matches Ok(x) ==> {
            &&& x.key@ == o.key@
            &&& x.commitment@ == o.mask@
            &&& x.transaction@ == o.txid@
            &&& x.unlocked == o.unlocked
        },
{
    match point_from_32(o.key.as_slice()) {
        Err(e) => Err(RpcError::Point(e)),
        Ok(key) => match point_from_32(o.mask.as_slice()) {
            Err(e) => Err(RpcError::Point(e)),
            Ok(commitment) => match bytes_32(o.txid.as_slice()) {
                None => Err(RpcError::TxidLength),
                Some(transaction) => Ok(
                    RingCtOutput { unlocked: o.unlocked, key, commitment, transaction },
                ),
            },
        },
    }
}

/// Reads the keys of an output as points, where it is unlocked.
pub fn unlocked_output(o: &OutInfo) -> (r: Result<UnlockedOutput, RpcError>)
    ensures
        rpc::says(r, unlocked_fn()(o@)),
        r matches Ok(x) ==> (x.points is Some <==> o.unlocked),
        r matches Ok(x) ==> (x.points matches Some(p) ==> p.0@ == o.key@ && p.1@ == o.mask@),
{
    if !o.unlocked {
        return Ok(UnlockedOutput { points: None });
    }
    match point_from_32(o.key.as_slice()) {
        Err(e) => Err(RpcError::Point(e)),
        Ok(key) => match point_from_32(o.mask.as_slice()) {
            Err(e) => Err(RpcError::Point(e)),
            Ok(commitment) => Ok(UnlockedOutput { points: Some((key, commitment)) }),
        },
    }
}

impl DaemonRpc {
    /// Asks for outputs by their indexes. There is nothing to ask where there are none.
    pub fn outs_request(&self, indexes: &[u64]) -> (r: Option<Request>)
        ensures
            match r {
                Some(q) => indexes@.len() > 0 && q@ == outs_call(self.url@, indexes@),
                None => indexes@.len() == 0,
            },
    {
        if indexes.is_empty() {
            return None;
        }
        let ghost stated = indexes@.map_values(|i: u64| out_asked(i));
        let mut asked: Vec<Json> = Vec::new();
        let mut i: usize = 0;
        while i < indexes.len()
            invariant
                i <= indexes@.len(),
                stated == indexes@.map_values(|i: u64| out_asked(i)),
                json::json_list(asked@) == stated.take(i as int),
            decreases indexes@.len() - i,
        {
            let ghost before = asked@;
            let one: Json = object_2("index", Json::Number(indexes[i]), "txid", Json::Bool(true));
            assert(one@ == stated[i as int]);
            asked.push(one);
            assert(asked@.drop_last() =~= before);
            assert(asked@.last() == one);
            assert(json::json_list(asked@) =~= stated.take(i + 1));
            i += 1;
        }
        assert(stated.take(indexes@.len() as int) =~= stated);
        Some(self.post_uri("/get_outs", object_1("outputs", Json::Array(asked))))
    }

    /// get_outs → key, mask (commitment), unlock and transaction of each output that
    /// was asked for, in order.
    pub fn outs_(indexes: &[u64], reply: Option<&Json>) -> (r: Result<Vec<OutInfo>, RpcError>)
        ensures
            rpc::says_list(r, outs_in(indexes@, rpc::heard(reply))),
            r matches Ok(v) ==> v.len() == indexes@.len(),
    {
        if indexes.is_empty() {
            let none: Vec<OutInfo> = Vec::new();
            assert(list::views(none@) =~= Seq::<OutInfoView>::empty());
            return Ok(none);
        }
        let reply: &Json = match reply {
            None => {
                return Err(RpcError::NoOuts);
            },
            Some(reply) => reply,
        };
        let res: &Json = match post_uri_result("/get_outs", reply) {
            Err(e) => {
                return Err(e);
            },
            Ok(res) => res,
        };
        match res.array_at("outs") {
            None => Err(RpcError::NoOuts),
            Some(outs) => {
                proof {
                    json::lemma_json_list(outs@);
                    assert(json::json_list(outs@) =~= list::views(outs@));
                }
                if outs.len() != indexes.len() {
                    return Err(RpcError::OutCount);
                }
                each_of(outs, out, Ghost(out_fn()))
            },
        }
    }

    /// get_outs → the outputs, each with its keys read as points.
    pub fn ringct_outputs(indexes: &[u64], reply: Option<&Json>) -> (r: Result<
        Vec<RingCtOutput>,
        RpcError,
    >)
        ensures
            rpc::says_list(
                r,
                match outs_in(indexes@, rpc::heard(reply)) {
                    Err(f) => Err(f),
                    Ok(outs) => list::each(outs, ringct_fn()),
                },
            ),
            r matches Ok(v) ==> v.len() == indexes@.len(),
    {
        match DaemonRpc::outs_(indexes, reply) {
            Err(e) => Err(e),
            Ok(outs) => each_of(&outs, ringct_output, Ghost(ringct_fn())),
        }
    }

    /// get_outs → the key and the commitment of each output that is unlocked.
    pub fn unlocked_ringct_outputs(
        indexes: &[u64],
        reply: Option<&Json>,
    ) -> (r: Result<Vec<UnlockedOutput>, RpcError>)
        ensures
            rpc::says_list(
                r,
                match outs_in(indexes@, rpc::heard(reply)) {
                    Err(f) => Err(f),
                    Ok(outs) => list::each(outs, unlocked_fn()),
                },
            ),
            r matches Ok(v) ==> v.len() == indexes@.len(),
    {
        match DaemonRpc::outs_(indexes, reply) {
            Err(e) => Err(e),
            Ok(outs) => each_of(&outs, unlocked_output, Ghost(unlocked_fn())),
        }
    }
}

/// Where outputs come, there is one for each index that was asked for.
pub proof fn law_outputs_are_as_many_as_asked_for(indexes: Seq<u64>, reply: Option<JsonView>)
    ensures
        outs_in(indexes, reply) matches Ok(outs) ==> outs.len() == indexes.len(),
{
    if indexes.len() > 0 && reply is Some {
        match reply->0.at("outs"@).elements() {
            Some(outs) => {
                list::law_each_is_elementwise(outs, out_fn());
            },
            None => {},
        }
    }
}

} // verus!
