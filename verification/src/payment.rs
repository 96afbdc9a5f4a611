//! Payments that prove execution: the OP_RETURN output carrying a request
//! identifier, and the open-request executor's choice between re-using a
//! transaction already in the wallet and paying a new one.

use vstd::prelude::*;

use crate::types::{bytes_clone, H256Le, RequestId};

verus! {

/// The script of an OP_RETURN output carrying a 32-byte payload: the
/// OP_RETURN opcode, a 32-byte push, then the payload.
pub open spec fn op_return_script_spec(payload: Seq<u8>) -> Seq<u8> {
    seq![0x6au8, 0x20u8] + payload
}

/// The OP_RETURN output script that carries `id`, as every executed
/// payment of an issue, redeem, replace or refund embeds it.
pub fn op_return_script(id: &RequestId) -> (r: Vec<u8>)
    requires
        id.wf(),
    ensures
        r@ == op_return_script_spec(id@),
        r@.len() == 34,
{
    let mut out: Vec<u8> = Vec::new();
    out.push(0x6a);
    out.push(0x20);
    let n = id.bytes.len();
    let mut i: usize = 0;
    while i < n
        invariant
            n == id.bytes.len(),
            i <= n,
            out@ =~= seq![0x6au8, 0x20u8] + id@.take(i as int),
        decreases n - i,
    {
        out.push(id.bytes[i]);
        proof {
            assert(out@ =~= seq![0x6au8, 0x20u8] + id@.take(i as int + 1));
        }
        i += 1;
    }
    proof {
        assert(id@.take(n as int) =~= id@);
    }
    out
}

/// The request identifier an output script carries, if the script is an
/// OP_RETURN push of exactly 32 bytes.
pub fn decode_op_return(script: &Vec<u8>) -> (r: Option<RequestId>)
    ensures
        r matches Some(id) ==> script@ == op_return_script_spec(id@) && id.wf(),
        r is None ==> forall|p: Seq<u8>|
            p.len() == 32 ==> script@ != op_return_script_spec(p),
{
    if script.len() != 34 || script[0] != 0x6a || script[1] != 0x20 {
        proof {
            assert forall|p: Seq<u8>| p.len() == 32 implies script@ != op_return_script_spec(
                p,
            ) by {
                assert(op_return_script_spec(p).len() == 34);
                if script@.len() == 34 {
                    assert(op_return_script_spec(p)[0] == 0x6a);
                    assert(op_return_script_spec(p)[1] == 0x20);
                }
            }
        }
        return None;
    }
    let mut payload: Vec<u8> = Vec::new();
    let mut i: usize = 2;
    while i < 34
        invariant
            script@.len() == 34,
            2 <= i <= 34,
            payload@ =~= script@.subrange(2, i as int),
        decreases 34 - i,
    {
        payload.push(script[i]);
        proof {
            assert(payload@ =~= script@.subrange(2, i as int + 1));
        }
        i += 1;
    }
    let id = RequestId { bytes: payload };
    proof {
        assert(script@ =~= op_return_script_spec(id@));
    }
    Some(id)
}

/// Distinct identifiers never share an OP_RETURN script: what a payment's
/// script decodes to is exactly the identifier it was built from.
pub proof fn lemma_op_return_round_trip(left: Seq<u8>, right: Seq<u8>)
    requires
        op_return_script_spec(left) == op_return_script_spec(right),
    ensures
        left == right,
{
    assert(op_return_script_spec(left).len() == 2 + left.len());
    assert(op_return_script_spec(right).len() == 2 + right.len());
    assert(left.len() == right.len());
    assert forall|i: int| 0 <= i < left.len() implies left[i] == right[i] by {
        assert(op_return_script_spec(left)[i + 2] == left[i]);
        assert(op_return_script_spec(right)[i + 2] == right[i]);
    }
    assert(left =~= right);
}

/// A transaction found in the local wallet's history: its identifier and
/// the script of its OP_RETURN output, if it has one.
#[derive(Debug)]
pub struct WalletTx {
    pub txid: H256Le,
    pub op_return: Vec<u8>,
}

impl View for WalletTx {
    type V = (Seq<u8>, Seq<u8>);

    open spec fn view(&self) -> (Seq<u8>, Seq<u8>) {
        (self.txid@, self.op_return@)
    }
}

/// The `(txid, op_return script)` views of a wallet history.
pub open spec fn wallet_views(s: Seq<WalletTx>) -> Seq<(Seq<u8>, Seq<u8>)> {
    s.map_values(|t: WalletTx| t@)
}

/// Whether a wallet transaction's OP_RETURN output carries `idv`.
pub open spec fn carries_id(t: (Seq<u8>, Seq<u8>), idv: Seq<u8>) -> bool {
    t.1 == op_return_script_spec(idv)
}

/// What the executor does for one open request it must pay.
#[derive(Debug)]
pub enum ExecutionAction {
    /// A transaction carrying the request's identifier already sits in the
    /// wallet at this index: do not send again, prove that one instead.
    UseExisting { index: usize },
    /// Nothing in the wallet pays this request: send a new transaction
    /// with the identifier in OP_RETURN, then prove it.
    PayAndExecute,
}

/// The executor's choice for an open request: re-use the first wallet
/// transaction whose OP_RETURN carries the request's identifier, and pay
/// anew only when there is none.
pub fn plan_execution(wallet: &Vec<WalletTx>, id: &RequestId) -> (r: ExecutionAction)
    requires
        id.wf(),
    ensures
        r matches ExecutionAction::UseExisting { index } ==> index < wallet@.len() && carries_id(
            wallet_views(wallet@)[index as int],
            id@,
        ) && forall|j: int|
            0 <= j < index ==> !carries_id(#[trigger] wallet_views(wallet@)[j], id@),
        r is PayAndExecute ==> forall|j: int|
            0 <= j < wallet@.len() ==> !carries_id(#[trigger] wallet_views(wallet@)[j], id@),
{
    let n = wallet.len();
    let mut i: usize = 0;
    while i < n
        invariant
            n == wallet.len(),
            i <= n,
            id.wf(),
            forall|j: int| 0 <= j < i ==> !carries_id(#[trigger] wallet_views(wallet@)[j], id@),
        decreases n - i,
    {
        match decode_op_return(&wallet[i].op_return) {
            Some(found) => {
                if found.eq_id(id) {
                    proof {
                        assert(wallet_views(wallet@)[i as int] == wallet@[i as int]@);
                    }
                    return ExecutionAction::UseExisting { index: i };
                }
                proof {
                    assert(wallet_views(wallet@)[i as int] == wallet@[i as int]@);
                    if carries_id(wallet@[i as int]@, id@) {
                        lemma_op_return_round_trip(found@, id@);
                    }
                }
            },
            None => {
                proof {
                    assert(wallet_views(wallet@)[i as int] == wallet@[i as int]@);
                }
            },
        }
        i += 1;
    }
    ExecutionAction::PayAndExecute
}

/// How the parachain answered one execute extrinsic.
#[derive(Clone, Copy, Debug, PartialEq, Eq, Structural)]
pub enum ExecutionOutcome {
    /// The proof was accepted.
    Accepted,
    /// The parachain rejected a duplicate: the request was already
    /// executed.
    AlreadyExecuted,
    /// A transient failure.
    TransientFailure,
}

/// Whether an execution submission is settled: duplicates are rejected by
/// the parachain, and the executor takes that rejection as success.
pub fn execution_settled(outcome: ExecutionOutcome) -> (r: bool)
    ensures
        r == !(outcome is TransientFailure),
{
    match outcome {
        ExecutionOutcome::Accepted => true,
        ExecutionOutcome::AlreadyExecuted => true,
        ExecutionOutcome::TransientFailure => false,
    }
}

/// An open redeem, replace or refund obligation this vault must pay: the
/// request, the Bitcoin destination, and the amount of wBTC-backed satoshi
/// owed.
#[derive(Debug)]
pub struct OpenRequest {
    pub id: RequestId,
    pub btc_address: crate::types::BtcAddress,
    pub amount: u128,
}

/// What to hand the wallet to pay one obligation: destination, amount,
/// and the OP_RETURN script carrying the request identifier.
#[derive(Debug)]
pub struct PaymentInstruction {
    pub btc_address: crate::types::BtcAddress,
    pub amount: u128,
    pub op_return: Vec<u8>,
}

/// The payment a redeem, replace or refund obligation calls for: the
/// requested amount to the requested address, the request identifier in
/// OP_RETURN so the parachain can match the proof to the request.
pub fn payment_instruction(req: &OpenRequest) -> (r: PaymentInstruction)
    requires
        req.id.wf(),
    ensures
        r.btc_address@ == req.btc_address@,
        r.amount == req.amount,
        r.op_return@ == op_return_script_spec(req.id@),
{
    PaymentInstruction {
        btc_address: crate::types::BtcAddress { bytes: bytes_clone(&req.btc_address.bytes) },
        amount: req.amount,
        op_return: op_return_script(&req.id),
    }
}

/// A copy of a transaction identifier paired with its wallet index, handed
/// to the caller so it can fetch the raw transaction and proof.
pub fn payment_txid(wallet: &Vec<WalletTx>, index: usize) -> (r: H256Le)
    requires
        index < wallet@.len(),
    ensures
        r@ == wallet@[index as int].txid@,
{
    H256Le { bytes: bytes_clone(&wallet[index].txid.bytes) }
}

} // verus!
