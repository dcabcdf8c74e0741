//! Building an unsigned transaction for the device, and reading the signed one.
use curve25519_dalek::edwards::CompressedEdwardsY;
use curve25519_dalek::Scalar as DalekScalar;
use monero_oxide::ed25519::{Point, Scalar};
use monero_wallet::address::MoneroAddress;
use monero_wallet::address::Network::Mainnet;
use monero_wallet::interface::FeeRate;
use monero_wallet::ringct::RctType::ClsagBulletproofPlus;
use monero_wallet::send::SendError::NotEnoughFunds;
use monero_wallet::send::{Change, SignableTransaction};
use monero_wallet::{OutputWithDecoys, ViewPair};
use vstd::prelude::*;
use zeroize::Zeroizing;

use crate::bytes::{self, decode_hex, same_key, HexError};
use crate::chain::{self, read_full_tx, FullTx, FullTxView, KeysView, ViewKeys};
use crate::json::{Json, JsonView};
use crate::list;
use crate::page::{self, make_code, render, send_page};
use crate::relay::{self, Fees, MAX_PER_WEIGHT};
use crate::rpc::{DaemonRpc, Fault, RpcError};
use crate::select::{self, select};
use crate::text::{self, chars_of, string_of, strip_prefix, trim};
use crate::wallet::{self, copy_outputs, OwnedOutput, OwnedView};

verus! {

/// Why a payment cannot be built.
#[derive(Debug)]
pub enum SendError {
    /// The amount is zero.
    ZeroAmount,
    /// The wallet owns no outputs yet.
    NoOutputs,
    /// The destination is no address.
    BadAddress,
    /// The destination is no mainnet address.
    DestinationParse(String),
    /// The node's fee estimate is of no use.
    Fee(RpcError),
    /// All outputs together are worth less than the amount and the fee.
    InsufficientFunds { available: u128 },
    /// There are not as many rings as inputs.
    RingCount,
    /// A ring cannot be read.
    Ring(String),
    /// A ring is not that of its input.
    ForeignRing,
    /// The inputs do not cover the amount and this fee.
    WantOfFunds { fee: u64 },
    /// The transaction cannot be built.
    Build(String),
    /// The envelope does not fit in a single QR code.
    TooBig { size: usize },
}

/// What such an error says.
pub enum SendFault {
    ZeroAmount,
    NoOutputs,
    BadAddress,
    DestinationParse(Seq<char>),
    Fee(Fault),
    InsufficientFunds { available: nat },
    RingCount,
    Ring(Seq<char>),
    ForeignRing,
    WantOfFunds { fee: u64 },
    Build(Seq<char>),
    TooBig { size: nat },
}

impl View for SendError {
    type V = SendFault;

    open spec fn view(&self) -> SendFault {
        match *self {
            SendError::ZeroAmount => SendFault::ZeroAmount,
            SendError::NoOutputs => SendFault::NoOutputs,
            SendError::BadAddress => SendFault::BadAddress,
            SendError::DestinationParse(m) => SendFault::DestinationParse(m@),
            SendError::Fee(e) => SendFault::Fee(e@),
            SendError::InsufficientFunds { available } => SendFault::InsufficientFunds {
                available: available as nat,
            },
            SendError::RingCount => SendFault::RingCount,
            SendError::Ring(m) => SendFault::Ring(m@),
            SendError::ForeignRing => SendFault::ForeignRing,
            SendError::WantOfFunds { fee } => SendFault::WantOfFunds { fee },
            SendError::Build(m) => SendFault::Build(m@),
            SendError::TooBig { size } => SendFault::TooBig { size: size as nat },
        }
    }
}

// ---------------------------------------------------------------------------
// The request
// ---------------------------------------------------------------------------

/// A payment that was asked for.
pub struct Payment {
    pub to: String,
    pub amount: u64,
}

/// Whether a text is an address of the main network, and what is said where it is none.
pub uninterp spec fn mainnet_address(address: Seq<char>) -> Result<(), Seq<char>>;

/// `monero_wallet::address::Address::from_str` for the main network: whether it
/// reads an address, or the message of its error.
#[verifier::external_body]
fn read_mainnet_address(address: &str) -> (r: Result<(), String>)
    ensures
        match r {
            Ok(_) => mainnet_address(address@) == Ok::<(), Seq<char>>(()),
            Err(e) => mainnet_address(address@) == Err::<(), Seq<char>>(e@),
        },
{
    MoneroAddress::from_str(Mainnet, address).map_err(|e| e.to_string())?;
    Ok(())
}

/// Why a payment to a destination is refused before outputs are selected.
/// `valid` says whether the destination passed validation, and `mainnet` what the
/// reader of mainnet addresses says of it.
pub open spec fn destination_fault(
    outputs: nat,
    valid: bool,
    mainnet: Result<(), Seq<char>>,
) -> Option<SendFault> {
    if outputs == 0 {
        Some(SendFault::NoOutputs)
    } else if !valid {
        Some(SendFault::BadAddress)
    } else {
        match mainnet {
            Err(m) => Some(SendFault::DestinationParse(m)),
            Ok(_) => None,
        }
    }
}

impl Payment {
    /// A payment of an amount to a destination. An amount of zero is refused, before
    /// the wallet is brought up to date.
    pub fn new(to: &str, amount: u64) -> (r: Result<Payment, SendError>)
        ensures
            match r {
                Ok(p) => amount > 0 && p.to@ == to@ && p.amount == amount,
                Err(e) => amount == 0 && e@ == SendFault::ZeroAmount,
            },
    {
        if amount == 0 {
            return Err(SendError::ZeroAmount);
        }
        Ok(Payment { to: to.to_owned(), amount })
    }

    /// Goes on with the outputs of the wallet. `valid` says whether the destination
    /// passed validation.
    pub fn check(self, outputs: &Vec<OwnedOutput>, valid: bool) -> (r: Result<
        CheckedPayment,
        SendError,
    >)
        ensures
            ({
                let fault = destination_fault(
                    outputs@.len(),
                    valid,
                    mainnet_address(self.to@),
                );
                match r {
                    Ok(p) => fault is None && p@ == (CheckedView {
                        to: self.to@,
                        amount: self.amount,
                        outputs: list::views(outputs@),
                    }),
                    Err(e) => fault == Some(e@),
                }
            }),
    {
        if outputs.len() == 0 {
            return Err(SendError::NoOutputs);
        }
        if !valid {
            return Err(SendError::BadAddress);
        }
        match read_mainnet_address(self.to.as_str()) {
            Err(m) => Err(SendError::DestinationParse(m)),
            Ok(_) => Ok(
                CheckedPayment {
                    to: self.to,
                    amount: self.amount,
                    outputs: copy_outputs(outputs),
                },
            ),
        }
    }
}

// ---------------------------------------------------------------------------
// Inputs
// ---------------------------------------------------------------------------

/// The first outputs in the order of their amounts.
pub open spec fn first_outputs(outputs: Seq<OwnedView>, count: int) -> Seq<OwnedView> {
    select::order(select::amounts(outputs)).take(count).map_values(|i: int| outputs[i])
}

/// The serialized forms of some outputs.
pub open spec fn serialized(outputs: Seq<OwnedView>) -> Seq<Seq<u8>> {
    outputs.map_values(|o: OwnedView| o.wallet_output)
}

/// Takes the outputs with some indexes, each serialized.
fn take_inputs(outputs: &Vec<OwnedOutput>, indexes: &Vec<usize>) -> (r: Vec<Vec<u8>>)
    requires
        indexes.len() <= outputs.len(),
        select::as_ints(indexes@) == select::order(select::amounts(list::views(outputs@))).take(
            indexes.len() as int,
        ),
    ensures
        bytes::blobs(r@) == serialized(
            first_outputs(list::views(outputs@), indexes.len() as int),
        ),
{
    let ghost all = list::views(outputs@);
    let ghost amounts = select::amounts(all);
    let ghost front = select::order(amounts).take(indexes.len() as int);
    proof {
        select::law_order_names_each_once(amounts);
    }
    let mut inputs: Vec<Vec<u8>> = Vec::new();
    let mut i: usize = 0;
    while i < indexes.len()
        invariant
            i <= indexes.len(),
            all == list::views(outputs@),
            amounts == select::amounts(all),
            indexes.len() <= amounts.len(),
            select::order(amounts).len() == amounts.len(),
            select::indexes_of(select::order(amounts), amounts),
            front == select::order(amounts).take(indexes.len() as int),
            select::as_ints(indexes@) == front,
            inputs.len() == i,
            forall|j: int|
                0 <= j < i ==> (#[trigger] inputs@[j])@ == all[front[j]].wallet_output,
        decreases indexes.len() - i,
    {
        let at: usize = indexes[i];
        proof {
            assert(front[i as int] == at);
            assert(front[i as int] == select::order(amounts)[i as int]);
            assert(all[at as int] == outputs@[at as int]@);
        }
        inputs.push(outputs[at].wallet_output.clone());
        i += 1;
    }
    assert(bytes::blobs(inputs@) =~= serialized(first_outputs(all, indexes.len() as int)));
    inputs
}

/// Selects the serialized outputs that cover an amount and a fee, the largest first.
pub fn select_inputs(outputs: &Vec<OwnedOutput>, amount: u64, fee: u64) -> (r: Result<
    Vec<Vec<u8>>,
    SendError,
>)
    ensures
        ({
            let all = list::views(outputs@);
            match r {
                Ok(v) => {
                    &&& select::is_shortest(select::amounts(all), amount + fee, v.len() as int)
                    &&& bytes::blobs(v@) == serialized(first_outputs(all, v.len() as int))
                    &&& wallet::amount_sum(all) >= amount + fee
                },
                Err(e) => {
                    &&& wallet::amount_sum(all) < amount + fee
                    &&& e@ == (SendFault::InsufficientFunds { available: wallet::amount_sum(all) })
                },
            }
        }),
{
    let ghost all = list::views(outputs@);
    match select(outputs, amount, fee) {
        Err(available) => Err(SendError::InsufficientFunds { available }),
        Ok(indexes) => {
            proof {
                select::law_order_names_each_once(select::amounts(all));
                select::law_selection_is_affordable(all, amount + fee, indexes.len() as int);
            }
            let inputs: Vec<Vec<u8>> = take_inputs(outputs, &indexes);
            assert(bytes::blobs(inputs@).len() == indexes.len());
            Ok(inputs)
        },
    }
}

/// A payment that can be made to its destination, and the outputs that it can be made from.
pub struct CheckedPayment {
    to: String,
    amount: u64,
    outputs: Vec<OwnedOutput>,
}

/// What such a payment says.
pub struct CheckedView {
    pub to: Seq<char>,
    pub amount: u64,
    pub outputs: Seq<OwnedView>,
}

impl View for CheckedPayment {
    type V = CheckedView;

    closed spec fn view(&self) -> CheckedView {
        CheckedView {
            to: self.to@,
            amount: self.amount,
            outputs: list::views(self.outputs@),
        }
    }
}

/// A payment with its inputs, for each of which decoys are needed, and its fees.
pub struct FundedPayment {
    to: String,
    amount: u64,
    outputs: Vec<OwnedOutput>,
    fees: Fees,
    fee: u64,
    indexes: Vec<usize>,
    inputs: Vec<Vec<u8>>,
}

/// What such a payment says.
pub struct FundedView {
    pub to: Seq<char>,
    pub amount: u64,
    /// The outputs that the payment can be made from.
    pub outputs: Seq<OwnedView>,
    /// The rate that fees are paid at.
    pub fees: Fees,
    /// The fee that the inputs cover with the amount.
    pub fee: u64,
    /// The selected outputs, serialized.
    pub inputs: Seq<Seq<u8>>,
}

impl View for FundedPayment {
    type V = FundedView;

    closed spec fn view(&self) -> FundedView {
        FundedView {
            to: self.to@,
            amount: self.amount,
            outputs: list::views(self.outputs@),
            fees: self.fees,
            fee: self.fee,
            inputs: bytes::blobs(self.inputs@),
        }
    }
}

impl FundedView {
    /// The inputs are the largest outputs, just as many as cover amount and fee; the
    /// destination can be paid, and the rate is one.
    pub open spec fn well_formed(self) -> bool {
        &&& mainnet_address(self.to) is Ok
        &&& self.fees.per_weight > 0
        &&& self.fees.mask > 0
        &&& select::is_shortest(
            select::amounts(self.outputs),
            self.amount + self.fee,
            self.inputs.len() as int,
        )
        &&& self.inputs == serialized(self.spent())
    }

    /// The selected outputs.
    pub open spec fn spent(self) -> Seq<OwnedView> {
        first_outputs(self.outputs, self.inputs.len() as int)
    }
}

/// How many outputs are in a ring, the spent one among them.
pub const RING_LEN: u8 = 16;

/// The rate of a payment from some outputs, given the reply on the fees, where the
/// outputs cover the amount.
pub open spec fn funds(outputs: Seq<OwnedView>, amount: u64, reply: JsonView) -> Result<
    Fees,
    SendFault,
> {
    match relay::bounded_fee_rate_in(reply, MAX_PER_WEIGHT) {
        Err(f) => Err(SendFault::Fee(f)),
        Ok(fees) => if wallet::amount_sum(outputs) < amount {
            Err(SendFault::InsufficientFunds { available: wallet::amount_sum(outputs) })
        } else {
            Ok(fees)
        },
    }
}

impl CheckedPayment {
    #[verifier::type_invariant]
    closed spec fn can_be_paid(self) -> bool {
        mainnet_address(self.to@) is Ok
    }

    /// Goes on with the node's fee estimate: sets the rate, and then selects the
    /// inputs that cover the amount. What fee they must cover too is known once a
    /// transaction is tried.
    pub fn fund(self, reply: &Json) -> (r: Result<FundedPayment, SendError>)
        ensures
            match r {
                Ok(p) => {
                    &&& funds(self@.outputs, self@.amount, reply@) == Ok::<Fees, SendFault>(
                        p@.fees,
                    )
                    &&& p@.to == self@.to
                    &&& p@.amount == self@.amount
                    &&& p@.outputs == self@.outputs
                    &&& p@.fee == 0
                    &&& p@.well_formed()
                },
                Err(e) => funds(self@.outputs, self@.amount, reply@) == Err::<Fees, SendFault>(e@),
            },
    {
        proof {
            use_type_invariant(&self);
        }
        let fees: Fees = match DaemonRpc::bounded_fee_rate(reply, MAX_PER_WEIGHT) {
            Err(e) => {
                return Err(SendError::Fee(e));
            },
            Ok(fees) => fees,
        };
        match select(&self.outputs, self.amount, 0) {
            Err(available) => Err(SendError::InsufficientFunds { available }),
            Ok(indexes) => {
                proof {
                    let all = list::views(self.outputs@);
                    select::law_order_names_each_once(select::amounts(all));
                    select::law_selection_is_affordable(
                        all,
                        self.amount as int,
                        indexes.len() as int,
                    );
                }
                let inputs: Vec<Vec<u8>> = take_inputs(&self.outputs, &indexes);
                assert(bytes::blobs(inputs@).len() == indexes.len());
                Ok(
                    FundedPayment {
                        to: self.to,
                        amount: self.amount,
                        outputs: self.outputs,
                        fees,
                        fee: 0,
                        indexes,
                        inputs,
                    },
                )
            },
        }
    }
}

// ---------------------------------------------------------------------------
// The unsigned transaction
// ---------------------------------------------------------------------------

/// The key and the amount of the input in its ring that some bytes start with, or
/// what is said where they start with none.
pub uninterp spec fn ring_read(ring: Seq<u8>) -> Result<(Seq<u8>, u64), Seq<char>>;

/// `monero_wallet::OutputWithDecoys::read` on the bytes, then the input's key and
/// the amount of its commitment; or the message of the error.
#[verifier::external_body]
fn read_ring(ring: &[u8]) -> (r: Result<([u8; 32], u64), String>)
    ensures
        match r {
            Ok(p) => ring_read(ring@) == Ok::<(Seq<u8>, u64), Seq<char>>((p.0@, p.1)),
            Err(e) => ring_read(ring@) == Err::<(Seq<u8>, u64), Seq<char>>(e@),
        },
{
    let input = OutputWithDecoys::read(&mut &*ring).map_err(|e| e.to_string())?;
    Ok((input.key().compress().to_bytes(), input.commitment().amount))
}

/// The sum of the amounts of some inputs in their rings.
pub open spec fn ring_sum(rings: Seq<Seq<u8>>) -> nat
    decreases rings.len(),
{
    if rings.len() == 0 {
        0
    } else {
        ring_sum(rings.drop_last()) + match ring_read(rings.last()) {
            Ok(p) => p.1 as nat,
            Err(_) => 0,
        }
    }
}

/// The serialized transaction, still unsigned, that pays an amount to an address
/// from inputs in their rings, with the change back to the primary address of the
/// view keys. Where it cannot be built: the fee that it needs, if the inputs do
/// not cover it, and what is said.
pub uninterp spec fn unsigned_built(
    spend: Seq<u8>,
    view: Seq<u8>,
    rings: Seq<Seq<u8>>,
    to: Seq<char>,
    amount: u64,
    per_weight: u64,
    mask: u64,
) -> Result<Seq<u8>, (Option<u64>, Seq<char>)>;

/// `monero_wallet::send::SignableTransaction::new` with CLSAG and Bulletproofs+,
/// on the view pair, the rings, the address and the fee rate made from plain
/// values, then its serialization; or the message of its error, and the necessary
/// fee where the error is that funds do not suffice for it: then the amounts of the
/// inputs are below the amount and the fee. The view key seeds the transaction, so
/// that no chance is involved.
#[verifier::external_body]
fn build_signable(
    spend: [u8; 32],
    view: [u8; 32],
    rings: &Vec<Vec<u8>>,
    to: &str,
    amount: u64,
    per_weight: u64,
    mask: u64,
) -> (r: Result<Vec<u8>, (Option<u64>, String)>)
    requires
        chain::edwards_point(spend@),
        chain::view_pair_accepted(spend@, view@),
        forall|i: int| 0 <= i < rings.len() ==> ring_read((#[trigger] rings@[i])@) is Ok,
        mainnet_address(to@) is Ok,
        per_weight > 0,
        mask > 0,
    ensures
        ({
            let built = unsigned_built(
                spend@,
                view@,
                bytes::blobs(rings@),
                to@,
                amount,
                per_weight,
                mask,
            );
            match r {
                Ok(v) => built == Ok::<Seq<u8>, (Option<u64>, Seq<char>)>(v@),
                Err(e) => built == Err::<Seq<u8>, (Option<u64>, Seq<char>)>((e.0, e.1@)),
            }
        }),
        r matches Err((Some(fee), _)) ==> ring_sum(bytes::blobs(rings@)) < amount + fee,
{
    let point = Point::from(CompressedEdwardsY(spend).decompress().unwrap());
    let scalar = DalekScalar::from_bytes_mod_order(view);
    let pair = ViewPair::new(point, Zeroizing::new(Scalar::from(scalar))).unwrap();
    SignableTransaction::new(
        ClsagBulletproofPlus,
        Zeroizing::new(scalar.to_bytes()),
        rings.iter().map(|b| OutputWithDecoys::read(&mut b.as_slice()).unwrap()).collect(),
        vec![(MoneroAddress::from_str(Mainnet, to).unwrap(), amount)],
        Change::new(pair, None),
        vec![],
        FeeRate::new(per_weight, mask).unwrap(),
    ).map(|tx| tx.serialize()).map_err(|e| (
        match e { NotEnoughFunds { necessary_fee, .. } => necessary_fee, _ => None },
        e.to_string(),
    ))
}

/// Why a ring is not that of an output, where it is not.
pub open spec fn ring_fault(ring: Seq<u8>, output: OwnedView) -> Option<SendFault> {
    match ring_read(ring) {
        Err(m) => Some(SendFault::Ring(m)),
        Ok(p) => if p == (output.key, output.amount) {
            None
        } else {
            Some(SendFault::ForeignRing)
        },
    }
}

/// Why the first ring that is not that of its output is not, where rings and
/// outputs go in pairs.
pub open spec fn rings_fault(rings: Seq<Seq<u8>>, outputs: Seq<OwnedView>) -> Option<SendFault>
    decreases rings.len(),
{
    if rings.len() == 0 {
        None
    } else {
        match rings_fault(rings.drop_last(), outputs) {
            Some(f) => Some(f),
            None => ring_fault(rings.last(), outputs[rings.len() - 1]),
        }
    }
}

/// Tells why a ring is not that of an output, given the key and the amount of the
/// input that was read from it.
pub fn ring_error(read: Result<([u8; 32], u64), String>, output: &OwnedOutput) -> (r: Option<
    SendError,
>)
    ensures
        match read {
            Err(m) => r matches Some(e) && e@ == SendFault::Ring(m@),
            Ok(p) => if p.0@ == output.key@ && p.1 == output.amount {
                r is None
            } else {
                r matches Some(e) && e@ == SendFault::ForeignRing
            },
        },
{
    match read {
        Err(m) => Some(SendError::Ring(m)),
        Ok(p) => if same_key(&p.0, &output.key) && p.1 == output.amount {
            None
        } else {
            Some(SendError::ForeignRing)
        },
    }
}

/// Rings of their outputs have their amounts.
proof fn lemma_ring_sum(rings: Seq<Seq<u8>>, outputs: Seq<OwnedView>)
    requires
        rings.len() <= outputs.len(),
        rings_fault(rings, outputs) is None,
    ensures
        ring_sum(rings) == wallet::amount_sum(outputs.take(rings.len() as int)),
        forall|i: int| 0 <= i < rings.len() ==> ring_read(#[trigger] rings[i]) is Ok,
    decreases rings.len(),
{
    let n = rings.len() as int;
    if n == 0 {
        assert(outputs.take(0) =~= Seq::<OwnedView>::empty());
    } else {
        let less = rings.drop_last();
        lemma_ring_sum(less, outputs);
        assert(outputs.take(n).drop_last() =~= outputs.take(n - 1));
        assert(outputs.take(n).last() == outputs[n - 1]);
        assert forall|i: int| 0 <= i < rings.len() implies ring_read(#[trigger] rings[i]) is Ok by {
            if i < n - 1 {
                assert(less[i] == rings[i]);
            }
        }
    }
}

/// The first fault among rings is the first however many follow.
proof fn lemma_fault_stays(rings: Seq<Seq<u8>>, outputs: Seq<OwnedView>, i: int)
    requires
        0 <= i <= rings.len(),
        rings_fault(rings.take(i), outputs) is Some,
    ensures
        rings_fault(rings, outputs) == rings_fault(rings.take(i), outputs),
    decreases rings.len() - i,
{
    if i == rings.len() {
        assert(rings.take(i) =~= rings);
    } else {
        assert(rings.take(i + 1).drop_last() =~= rings.take(i));
        lemma_fault_stays(rings, outputs, i + 1);
    }
}

/// The selected outputs are worth what their indexes sum up to.
pub(crate) proof fn lemma_spent_sum(outputs: Seq<OwnedView>, count: int)
    requires
        0 <= count <= outputs.len(),
    ensures
        first_outputs(outputs, count).len() == count,
        wallet::amount_sum(first_outputs(outputs, count)) == select::sum_at(
            select::order(select::amounts(outputs)).take(count),
            select::amounts(outputs),
        ),
    decreases count,
{
    let amounts = select::amounts(outputs);
    let order = select::order(amounts);
    select::law_order_names_each_once(amounts);
    if count == 0 {
        assert(order.take(0) =~= Seq::<int>::empty());
        assert(first_outputs(outputs, 0) =~= Seq::<OwnedView>::empty());
    } else {
        lemma_spent_sum(outputs, count - 1);
        assert(order.take(count).drop_last() =~= order.take(count - 1));
        assert(order.take(count).last() == order[count - 1]);
        assert(0 <= order[count - 1] < amounts.len());
        assert(first_outputs(outputs, count).drop_last() =~= first_outputs(outputs, count - 1));
        assert(first_outputs(outputs, count).last() == outputs[order[count - 1]]);
    }
}

impl FundedView {
    /// The unsigned transaction of a payment with its inputs in rings, or why there is none.
    pub open spec fn built(self, keys: KeysView, rings: Seq<Seq<u8>>) -> Result<
        Seq<u8>,
        SendFault,
    > {
        if rings.len() != self.inputs.len() {
            Err(SendFault::RingCount)
        } else {
            match rings_fault(rings, self.spent()) {
                Some(f) => Err(f),
                None => match unsigned_built(
                    keys.spend,
                    keys.view,
                    rings,
                    self.to,
                    self.amount,
                    self.fees.per_weight,
                    self.fees.mask,
                ) {
                    Ok(payload) => Ok(payload),
                    Err(e) => Err(build_fault(e.0, e.1)),
                },
            }
        }
    }
}

/// Why a transaction is not built, given the fee that it needs, where the inputs do
/// not cover it, and what the builder says.
pub open spec fn build_fault(fee: Option<u64>, message: Seq<char>) -> SendFault {
    match fee {
        Some(fee) => SendFault::WantOfFunds { fee },
        None => SendFault::Build(message),
    }
}

/// Says why a transaction is not built, given what the builder says.
pub fn build_error(fee: Option<u64>, message: String) -> (r: SendError)
    ensures
        r@ == build_fault(fee, message@),
{
    match fee {
        Some(fee) => SendError::WantOfFunds { fee },
        None => SendError::Build(message),
    }
}

impl FundedView {
    /// The payment goes on with a fee: its inputs stay the first ones, and there are
    /// more, just as many as cover the amount and the fee.
    pub open spec fn goes_on(self, fee: u64, next: FundedView) -> bool {
        &&& next.to == self.to
        &&& next.amount == self.amount
        &&& next.outputs == self.outputs
        &&& next.fees == self.fees
        &&& next.fee == fee
        &&& next.well_formed()
        &&& wallet::amount_sum(self.outputs) >= self.amount + fee
        &&& self.inputs.len() < next.inputs.len() <= self.outputs.len()
        &&& next.inputs.take(self.inputs.len() as int) == self.inputs
    }

    /// The inputs already cover the amount and a fee.
    pub open spec fn covers(self, fee: u64) -> bool {
        wallet::amount_sum(self.spent()) >= self.amount + fee
    }
}

/// A payment as an unsigned transaction, which is to be put in an envelope.
pub struct UnsignedPayment {
    pub to: String,
    pub amount: u64,
    /// The number of inputs.
    pub inputs: usize,
    pub payload: Vec<u8>,
}

impl FundedPayment {
    #[verifier::type_invariant]
    closed spec fn is_funded(self) -> bool {
        &&& self@.well_formed()
        &&& self.indexes.len() == self.inputs.len()
        &&& select::as_ints(self.indexes@) == select::order(select::amounts(self@.outputs)).take(
            self.inputs.len() as int,
        )
    }

    /// Checks that rings are those of the inputs, as many of both.
    fn check_rings(&self, rings: &Vec<Vec<u8>>) -> (r: Result<(), SendError>)
        requires
            rings.len() == self@.inputs.len(),
        ensures
            match r {
                Ok(_) => rings_fault(bytes::blobs(rings@), self@.spent()) is None,
                Err(e) => rings_fault(bytes::blobs(rings@), self@.spent()) == Some(e@),
            },
    {
        let ghost all = bytes::blobs(rings@);
        let ghost spent = self@.spent();
        let ghost order = select::order(select::amounts(self@.outputs));
        proof {
            use_type_invariant(self);
            select::law_order_names_each_once(select::amounts(self@.outputs));
            assert(all.take(0) =~= Seq::<Seq<u8>>::empty());
        }
        let mut i: usize = 0;
        while i < rings.len()
            invariant
                i <= rings.len(),
                all == bytes::blobs(rings@),
                spent == self@.spent(),
                self@.outputs == list::views(self.outputs@),
                order == select::order(select::amounts(self@.outputs)),
                rings.len() == self.indexes.len(),
                rings.len() == self@.inputs.len(),
                rings.len() <= order.len(),
                order.len() == self.outputs.len(),
                select::indexes_of(order, select::amounts(self@.outputs)),
                select::as_ints(self.indexes@) == order.take(rings.len() as int),
                rings_fault(all.take(i as int), spent) is None,
            decreases rings.len() - i,
        {
            let at: usize = self.indexes[i];
            proof {
                assert(select::as_ints(self.indexes@)[i as int] == at);
                assert(order.take(rings.len() as int)[i as int] == order[i as int]);
                assert(0 <= order[i as int] < select::amounts(self@.outputs).len());
                assert(spent[i as int] == self.outputs@[at as int]@);
                assert(all.take(i + 1).drop_last() =~= all.take(i as int));
                assert(all.take(i + 1).last() == rings@[i as int]@);
            }
            match ring_error(read_ring(rings[i].as_slice()), &self.outputs[at]) {
                Some(e) => {
                    proof {
                        lemma_fault_stays(all, spent, i + 1);
                    }
                    return Err(e);
                },
                None => {},
            }
            i += 1;
        }
        assert(all.take(rings.len() as int) =~= all);
        Ok(())
    }

    /// The selected outputs, serialized; each needs a ring.
    pub fn inputs(&self) -> (r: &Vec<Vec<u8>>)
        ensures
            bytes::blobs(r@) == self@.inputs,
            self@.well_formed(),
    {
        proof {
            use_type_invariant(self);
        }
        &self.inputs
    }

    /// The rate that fees are paid at.
    pub fn fees(&self) -> (r: Fees)
        ensures
            r == self@.fees,
    {
        self.fees
    }

    /// Builds the unsigned transaction from the inputs in their rings, one for each
    /// input, in order.
    pub fn build(&self, keys: &ViewKeys, rings: &Vec<Vec<u8>>) -> (r: Result<
        UnsignedPayment,
        SendError,
    >)
        ensures
            match r {
                Ok(p) => {
                    &&& self@.built(keys@, bytes::blobs(rings@)) == Ok::<Seq<u8>, SendFault>(
                        p.payload@,
                    )
                    &&& p.to@ == self@.to
                    &&& p.amount == self@.amount
                    &&& p.inputs == self@.inputs.len()
                },
                Err(e) => self@.built(keys@, bytes::blobs(rings@)) == Err::<Seq<u8>, SendFault>(e@),
            },
            r matches Err(SendError::WantOfFunds { fee }) ==> !self@.covers(fee),
            r matches Ok(p) ==> unsigned_built(
                keys@.spend,
                keys@.view,
                bytes::blobs(rings@),
                p.to@,
                p.amount,
                self@.fees.per_weight,
                self@.fees.mask,
            ) == Ok::<Seq<u8>, (Option<u64>, Seq<char>)>(p.payload@),
    {
        proof {
            use_type_invariant(self);
        }
        if rings.len() != self.inputs.len() {
            return Err(SendError::RingCount);
        }
        match self.check_rings(rings) {
            Err(e) => {
                proof {
                    lemma_no_ring_fault_of_funds(bytes::blobs(rings@), self@.spent());
                }
                return Err(e);
            },
            Ok(_) => {},
        }
        proof {
            let all = bytes::blobs(rings@);
            select::law_order_names_each_once(select::amounts(self@.outputs));
            lemma_spent_sum(self@.outputs, rings.len() as int);
            lemma_ring_sum(all, self@.spent());
            assert(self@.spent().take(rings.len() as int) =~= self@.spent());
            assert forall|i: int| 0 <= i < rings.len() implies ring_read(
                (#[trigger] rings@[i])@,
            ) is Ok by {
                assert(ring_read(all[i]) is Ok);
            }
        }
        let spend: [u8; 32] = keys.spend_key();
        match build_signable(
            spend,
            keys.view_key(),
            rings,
            self.to.as_str(),
            self.amount,
            self.fees.per_weight,
            self.fees.mask,
        ) {
            Err(e) => Err(build_error(e.0, e.1)),
            Ok(payload) => Ok(
                UnsignedPayment {
                    to: self.to.clone(),
                    amount: self.amount,
                    inputs: self.inputs.len(),
                    payload,
                },
            ),
        }
    }

    /// Selects again, now with the fee that the transaction turned out to need. The
    /// inputs so far stay the first ones, and there is at least one more; where they
    /// already cover the fee, the want of funds stands.
    pub fn reselect(self, fee: u64) -> (r: Result<FundedPayment, SendError>)
        ensures
            ({
                let available = wallet::amount_sum(self@.outputs);
                match r {
                    Ok(p) => self@.goes_on(fee, p@) && !self@.covers(fee) && available
                        >= self@.amount + fee,
                    Err(e) => if available < self@.amount + fee {
                        e@ == (SendFault::InsufficientFunds { available })
                    } else {
                        self@.covers(fee) && e@ == (SendFault::WantOfFunds { fee })
                    },
                }
            }),
    {
        proof {
            use_type_invariant(&self);
        }
        let indexes: Vec<usize> = match select(&self.outputs, self.amount, fee) {
            Err(available) => {
                return Err(SendError::InsufficientFunds { available });
            },
            Ok(indexes) => indexes,
        };
        let ghost all = self@.outputs;
        let ghost amounts = select::amounts(all);
        let ghost was = self@.inputs.len() as int;
        let ghost now = indexes.len() as int;
        proof {
            select::law_order_names_each_once(amounts);
            select::law_selection_is_affordable(all, self@.amount + fee, now);
            lemma_spent_sum(all, was);
        }
        if indexes.len() <= self.inputs.len() {
            proof {
                lemma_sums_grow(amounts, now, was);
            }
            return Err(SendError::WantOfFunds { fee });
        }
        let inputs: Vec<Vec<u8>> = take_inputs(&self.outputs, &indexes);
        proof {
            assert(bytes::blobs(inputs@).len() == now);
            assert(serialized(first_outputs(all, now)).take(was) =~= serialized(
                first_outputs(all, was),
            ));
            assert(select::sum_at(select::order(amounts).take(was), amounts) < self@.amount + fee);
        }
        Ok(
            FundedPayment {
                to: self.to,
                amount: self.amount,
                outputs: self.outputs,
                fees: self.fees,
                fee,
                indexes,
                inputs,
            },
        )
    }
}

/// More outputs are worth no less.
proof fn lemma_sums_grow(amounts: Seq<u64>, a: int, b: int)
    requires
        0 <= a <= b <= amounts.len(),
    ensures
        select::sum_at(select::order(amounts).take(a), amounts) <= select::sum_at(
            select::order(amounts).take(b),
            amounts,
        ),
    decreases b - a,
{
    let order = select::order(amounts);
    select::law_order_names_each_once(amounts);
    if a < b {
        lemma_sums_grow(amounts, a, b - 1);
        assert(order.take(b).drop_last() =~= order.take(b - 1));
    }
}

/// What came of trying to build a transaction.
pub enum Attempt {
    Built(UnsignedPayment),
    /// The fee takes more inputs, and those behind the ones so far need rings.
    More(FundedPayment),
    Failed(SendError),
}

/// What such an outcome says.
pub enum Outcome {
    Built { to: Seq<char>, amount: u64, inputs: nat, payload: Seq<u8> },
    More(FundedView),
    Failed(SendFault),
}

impl View for Attempt {
    type V = Outcome;

    open spec fn view(&self) -> Outcome {
        match *self {
            Attempt::Built(p) => Outcome::Built {
                to: p.to@,
                amount: p.amount,
                inputs: p.inputs as nat,
                payload: p.payload@,
            },
            Attempt::More(p) => Outcome::More(p@),
            Attempt::Failed(e) => Outcome::Failed(e@),
        }
    }
}

impl FundedView {
    /// What comes of trying to build the transaction from the inputs in their rings:
    /// the transaction; or, where the inputs do not cover its fee, a payment with
    /// more inputs, unless all outputs do not cover it either; or why there is none.
    pub open spec fn tried(self, keys: KeysView, rings: Seq<Seq<u8>>, outcome: Outcome) -> bool {
        let available = wallet::amount_sum(self.outputs);
        match self.built(keys, rings) {
            Ok(payload) => outcome == (Outcome::Built {
                to: self.to,
                amount: self.amount,
                inputs: self.inputs.len(),
                payload,
            }),
            Err(SendFault::WantOfFunds { fee }) => if available >= self.amount + fee {
                outcome matches Outcome::More(next) && self.goes_on(fee, next)
            } else {
                outcome == Outcome::Failed(SendFault::InsufficientFunds { available })
            },
            Err(fault) => outcome == Outcome::Failed(fault),
        }
    }
}

impl FundedPayment {
    /// Tries to build the unsigned transaction from the inputs in their rings. Where
    /// they do not cover the fee, selects again with it.
    pub fn attempt(self, keys: &ViewKeys, rings: &Vec<Vec<u8>>) -> (r: Attempt)
        ensures
            self@.tried(keys@, bytes::blobs(rings@), r@),
            r matches Attempt::Built(p) ==> p.to@ == self@.to && p.amount == self@.amount
                && unsigned_built(
                keys@.spend,
                keys@.view,
                bytes::blobs(rings@),
                p.to@,
                p.amount,
                self@.fees.per_weight,
                self@.fees.mask,
            ) == Ok::<Seq<u8>, (Option<u64>, Seq<char>)>(p.payload@),
    {
        match self.build(keys, rings) {
            Ok(p) => Attempt::Built(p),
            Err(SendError::WantOfFunds { fee }) => match self.reselect(fee) {
                Ok(p) => Attempt::More(p),
                Err(e) => Attempt::Failed(e),
            },
            Err(e) => Attempt::Failed(e),
        }
    }
}

// ---------------------------------------------------------------------------
// The envelope
// ---------------------------------------------------------------------------

/// The most bytes that a QR code of any error correction level can hold. At the
/// level that is used it holds fewer, and then the code itself decides.
pub const MAX_QR_BYTES: usize = 2953;

/// The bytes of an envelope: its hexadecimal, with or without the prefix; none
/// where it is no hexadecimal.
pub open spec fn envelope_bytes(envelope: Seq<char>) -> Seq<u8> {
    let hex = match text::stripped(envelope, "xmr-txunsigned:"@) {
        Some(rest) => rest,
        None => envelope,
    };
    match bytes::hex_decoded_text(hex) {
        Ok(raw) => raw,
        Err(_) => Seq::empty(),
    }
}

/// Reads the bytes of an envelope.
pub fn decode_envelope(envelope: &str) -> (r: Vec<u8>)
    ensures
        r@ == envelope_bytes(envelope@),
{
    let whole: Vec<char> = chars_of(envelope);
    let decoded: Result<Vec<u8>, HexError> = match strip_prefix(&whole, "xmr-txunsigned:") {
        Some(rest) => decode_hex(string_of(&rest).as_str()),
        None => decode_hex(envelope),
    };
    match decoded {
        Ok(raw) => raw,
        Err(_) => Vec::new(),
    }
}

/// Serves an envelope: its bytes as a QR code for the device, and its text. An
/// envelope that does not fit in a single QR code is refused. The amount is
/// given in text.
pub fn serve_envelope(amount: &str, to: &str, inputs: usize, envelope: &str) -> (r: Result<
    String,
    SendError,
>)
    ensures
        serves(r, amount@, to@, inputs as nat, envelope@),
{
    let raw: Vec<u8> = decode_envelope(envelope);
    if raw.len() > MAX_QR_BYTES {
        return Err(SendError::TooBig { size: raw.len() });
    }
    match make_code(raw.as_slice()) {
        None => Err(SendError::TooBig { size: raw.len() }),
        Some(p) => {
            let (width, dark): (usize, Vec<bool>) = p;
            let svg: String = render(width, &dark);
            Ok(send_page(amount, to, inputs, svg.as_str(), envelope))
        },
    }
}

/// What serving an envelope gives: the page with the QR code of its bytes, where
/// there is one.
pub open spec fn serves(
    r: Result<String, SendError>,
    amount: Seq<char>,
    to: Seq<char>,
    inputs: nat,
    envelope: Seq<char>,
) -> bool {
    let raw = envelope_bytes(envelope);
    let code = page::qr_modules(raw);
    match r {
        Ok(page) => {
            &&& raw.len() <= MAX_QR_BYTES
            &&& raw.len() <= page::MAX_CODE_BYTES
            &&& code is Some
            &&& page@ == page::page_text(
                "xmxx send — scan with Prime"@,
                page::send_body(amount, to, inputs, page::qr_text(code), envelope),
            )
        },
        Err(e) => {
            &&& raw.len() > MAX_QR_BYTES || code is None
            &&& raw.len() > page::MAX_CODE_BYTES
            &&& e@ == (SendFault::TooBig { size: raw.len() })
        },
    }
}

impl UnsignedPayment {
    /// Goes on with the envelope: serves it. The amount is given in text.
    pub fn serve(&self, amount: &str, envelope: &str) -> (r: Result<String, SendError>)
        ensures
            serves(r, amount@, self.to@, self.inputs as nat, envelope@),
    {
        serve_envelope(amount, self.to.as_str(), self.inputs, envelope)
    }
}

// ---------------------------------------------------------------------------
// The signed transaction
// ---------------------------------------------------------------------------

/// Why the text that the device gave holds no signed transaction.
#[derive(Debug)]
pub enum SignedError {
    /// The text behind the prefix is no hexadecimal.
    Hex(HexError),
    /// The bytes are no transaction.
    Parse(String),
}

/// What such an error says.
pub enum SignedFault {
    Hex(HexError),
    Parse(Seq<char>),
}

impl View for SignedError {
    type V = SignedFault;

    open spec fn view(&self) -> SignedFault {
        match *self {
            SignedError::Hex(e) => SignedFault::Hex(e),
            SignedError::Parse(m) => SignedFault::Parse(m@),
        }
    }
}

/// The bytes of a signed transaction: behind the prefix in hexadecimal, and
/// without it as they are. Space around the text does not count.
pub open spec fn signed_bytes(body: Seq<char>) -> Result<Seq<u8>, HexError> {
    match text::stripped(text::trimmed(body), "xmr-txsigned:"@) {
        Some(hex) => bytes::hex_decoded_text(hex),
        None => Ok(vstd::utf8::encode_utf8(text::trimmed(body))),
    }
}

/// The signed transaction that a text holds.
pub open spec fn signed_tx(body: Seq<char>) -> Result<FullTxView, SignedFault> {
    match signed_bytes(body) {
        Err(e) => Err(SignedFault::Hex(e)),
        Ok(raw) => match chain::full_tx_of(raw) {
            Ok(tx) => Ok(tx),
            Err(m) => Err(SignedFault::Parse(m)),
        },
    }
}

/// Reads the bytes of a signed transaction.
pub fn decode_signed(body: &str) -> (r: Result<Vec<u8>, HexError>)
    ensures
        match r {
            Ok(raw) => signed_bytes(body@) == Ok::<Seq<u8>, HexError>(raw@),
            Err(e) => signed_bytes(body@) == Err::<Seq<u8>, HexError>(e),
        },
{
    let whole: Vec<char> = chars_of(body);
    let trimmed: Vec<char> = trim(&whole);
    match strip_prefix(&trimmed, "xmr-txsigned:") {
        Some(hex) => decode_hex(string_of(&hex).as_str()),
        None => {
            let plain: String = string_of(&trimmed);
            Ok(copy_bytes(plain.as_str().as_bytes()))
        },
    }
}

/// The same bytes once more.
fn copy_bytes(data: &[u8]) -> (r: Vec<u8>)
    ensures
        r@ == data@,
{
    let mut out: Vec<u8> = Vec::new();
    let mut i: usize = 0;
    while i < data.len()
        invariant
            i <= data@.len(),
            out@ == data@.take(i as int),
        decreases data@.len() - i,
    {
        out.push(data[i]);
        assert(out@ =~= data@.take(i + 1));
        i += 1;
    }
    assert(out@ =~= data@);
    out
}

/// Reads the signed transaction that the device gave.
pub fn parse_signed(body: &str) -> (r: Result<FullTx, SignedError>)
    ensures
        match r {
            Ok(tx) => signed_tx(body@) == Ok::<FullTxView, SignedFault>(tx@),
            Err(e) => signed_tx(body@) == Err::<FullTxView, SignedFault>(e@),
        },
{
    match decode_signed(body) {
        Err(e) => Err(SignedError::Hex(e)),
        Ok(raw) => match read_full_tx(raw.as_slice()) {
            Err(e) => Err(SignedError::Parse(e)),
            Ok(tx) => Ok(tx),
        },
    }
}

// ---------------------------------------------------------------------------
// Laws
// ---------------------------------------------------------------------------

/// A prefix in front of a text is stripped again.
proof fn lemma_stripped(prefix: Seq<char>, rest: Seq<char>)
    ensures
        text::stripped(prefix + rest, prefix) == Some(rest),
{
    assert((prefix + rest).take(prefix.len() as int) =~= prefix);
    assert((prefix + rest).skip(prefix.len() as int) =~= rest);
}

/// The bytes of an envelope are those that were written into it, in hexadecimal
/// behind the prefix.
pub proof fn law_envelope_reads_back(raw: Seq<u8>)
    ensures
        envelope_bytes("xmr-txunsigned:"@ + bytes::hex_text(raw)) == raw,
{
    lemma_stripped("xmr-txunsigned:"@, bytes::hex_text(raw));
    bytes::law_hex_reads_back(raw);
}

/// The bytes of a signed transaction are those that were written into the text,
/// in hexadecimal behind the prefix.
pub proof fn law_signed_reads_back(raw: Seq<u8>)
    ensures
        signed_bytes("xmr-txsigned:"@ + bytes::hex_text(raw)) == Ok::<Seq<u8>, HexError>(raw),
{
    reveal_strlit("xmr-txsigned:");
    let prefix = "xmr-txsigned:"@;
    let hex = bytes::hex_text(raw);
    let whole = prefix + hex;
    assert(whole[0] == 'x');
    if raw.len() == 0 {
        assert(whole.last() == ':');
    } else {
        assert(whole.last() == hex[hex.len() - 1]);
        let n = raw[(hex.len() - 1) / 2] as int;
        assert(0 <= n % 16 < 16);
    }
    text::law_trim_keeps(whole);
    lemma_stripped(prefix, hex);
    bytes::law_hex_reads_back(raw);
}

/// White space around the text of a signed transaction makes no difference.
pub proof fn law_signed_ignores_space(body: Seq<char>, c: char)
    requires
        text::white_space(c),
    ensures
        signed_tx(body.push(c)) == signed_tx(body),
        signed_tx(seq![c] + body) == signed_tx(body),
{
    text::law_trim_ignores_trailing(body, c);
    text::law_trim_ignores_leading(c, body);
}

/// A payment that is tried again and again, each time with the rings of its
/// inputs, from the first try to the last.
pub open spec fn is_run(
    run: Seq<FundedView>,
    keys: KeysView,
    rings: Seq<Seq<Seq<u8>>>,
) -> bool {
    &&& run.len() > 0
    &&& rings.len() == run.len()
    &&& forall|i: int|
        0 <= i < run.len() - 1 ==> (#[trigger] run[i]).tried(
            keys,
            rings[i],
            Outcome::More(run[i + 1]),
        )
}

/// The outputs cover the amount and every fee that is asked for in a run.
pub open spec fn covers_each_fee(
    run: Seq<FundedView>,
    keys: KeysView,
    rings: Seq<Seq<Seq<u8>>>,
) -> bool {
    forall|i: int|
        0 <= i < run.len() ==> ((#[trigger] run[i]).built(keys, rings[i]) matches Err(
            SendFault::WantOfFunds { fee },
        ) ==> wallet::amount_sum(run[0].outputs) >= run[0].amount + fee)
}

/// A run keeps the payment and what it can be made from, and each try has more
/// inputs than the one before it.
proof fn lemma_run(run: Seq<FundedView>, keys: KeysView, rings: Seq<Seq<Seq<u8>>>, i: int)
    requires
        is_run(run, keys, rings),
        0 <= i < run.len(),
    ensures
        run[i].outputs == run[0].outputs,
        run[i].amount == run[0].amount,
        run[i].inputs.len() >= run[0].inputs.len() + i,
        i > 0 ==> run[i].inputs.len() <= run[0].outputs.len(),
    decreases i,
{
    if i > 0 {
        lemma_run(run, keys, rings, i - 1);
        assert(run[i - 1].tried(keys, rings[i - 1], Outcome::More(run[i - 1 + 1])));
    }
}

/// A payment is tried no more often than it has outputs, and once more.
pub proof fn law_tries_end(run: Seq<FundedView>, keys: KeysView, rings: Seq<Seq<Seq<u8>>>)
    requires
        is_run(run, keys, rings),
    ensures
        run.len() <= run[0].outputs.len() + 1,
{
    lemma_run(run, keys, rings, run.len() - 1);
}

/// A payment whose outputs cover the amount and every fee that is asked for never
/// ends for want of funds, however often it is tried.
pub proof fn law_covered_payment_never_wants_funds(
    run: Seq<FundedView>,
    keys: KeysView,
    rings: Seq<Seq<Seq<u8>>>,
    fault: SendFault,
)
    requires
        is_run(run, keys, rings),
        covers_each_fee(run, keys, rings),
        run.last().tried(keys, rings.last(), Outcome::Failed(fault)),
    ensures
        !(fault is InsufficientFunds),
        !(fault is WantOfFunds),
{
    let last = run.len() - 1;
    lemma_run(run, keys, rings, last);
    assert(run[last].built(keys, rings[last]) == run.last().built(keys, rings.last()));
    lemma_no_ring_fault_of_funds(rings.last(), run.last().spent());
}

/// No fault of rings is one of funds.
proof fn lemma_no_ring_fault_of_funds(rings: Seq<Seq<u8>>, outputs: Seq<OwnedView>)
    ensures
        rings_fault(rings, outputs) matches Some(f) ==> !(f is InsufficientFunds) && !(
        f is WantOfFunds),
    decreases rings.len(),
{
    if rings.len() > 0 {
        lemma_no_ring_fault_of_funds(rings.drop_last(), outputs);
    }
}

/// The selected inputs cover amount and fee, and for an amount above zero there are some.
pub proof fn law_selection_covers_the_amount(
    amounts: Seq<u64>,
    amount: u64,
    fee: u64,
    count: int,
)
    requires
        select::is_shortest(amounts, amount + fee, count),
        amount > 0,
    ensures
        count > 0,
        select::sum_at(select::order(amounts).take(count), amounts) >= amount + fee,
{
    if count == 0 {
        assert(select::order(amounts).take(0) =~= Seq::<int>::empty());
    }
}

} // verus!
