use vault_client::payment::{
    decode_op_return, execution_settled, op_return_script, plan_execution, ExecutionAction,
    ExecutionOutcome, payment_txid, WalletTx,
};
use vault_client::types::{H256Le, RequestId};

fn id(b: u8) -> RequestId {
    RequestId { bytes: vec![b; 32] }
}

fn txid(b: u8) -> H256Le {
    H256Le { bytes: vec![b; 32] }
}

#[test]
fn op_return_round_trip() {
    let mut bytes = Vec::new();
    for i in 0..32u8 {
        bytes.push(i.wrapping_mul(7));
    }
    let request = RequestId { bytes: bytes.clone() };
    let script = op_return_script(&request);
    assert_eq!(script.len(), 34);
    assert_eq!(script[0], 0x6a);
    assert_eq!(script[1], 0x20);
    let decoded = decode_op_return(&script).unwrap();
    assert_eq!(decoded.bytes, bytes);
}

#[test]
fn op_return_rejects_malformed_scripts() {
    assert!(decode_op_return(&vec![]).is_none());
    assert!(decode_op_return(&vec![0x6a, 0x20]).is_none());
    let mut wrong_opcode = op_return_script(&id(1));
    wrong_opcode[0] = 0x51;
    assert!(decode_op_return(&wrong_opcode).is_none());
    let mut wrong_push = op_return_script(&id(1));
    wrong_push[1] = 0x21;
    assert!(decode_op_return(&wrong_push).is_none());
}

#[test]
fn executor_reuses_existing_payment() {
    // the wallet already holds a transaction carrying the request id: the
    // executor must not pay again, it proves the existing transaction
    let request = id(0x11);
    let wallet = vec![
        WalletTx { txid: txid(1), op_return: op_return_script(&id(0x22)) },
        WalletTx { txid: txid(2), op_return: op_return_script(&id(0x11)) },
    ];
    match plan_execution(&wallet, &request) {
        ExecutionAction::UseExisting { index } => {
            assert_eq!(index, 1);
            let found = payment_txid(&wallet, index);
            assert_eq!(found.bytes, vec![2; 32]);
        }
        ExecutionAction::PayAndExecute => panic!("must re-use the wallet transaction"),
    }
}

#[test]
fn executor_pays_when_wallet_has_nothing() {
    let request = id(0x11);
    let wallet = vec![WalletTx { txid: txid(1), op_return: op_return_script(&id(0x22)) }];
    assert!(matches!(
        plan_execution(&wallet, &request),
        ExecutionAction::PayAndExecute
    ));
    assert!(matches!(
        plan_execution(&Vec::new(), &request),
        ExecutionAction::PayAndExecute
    ));
}

#[test]
fn duplicate_execution_is_settled() {
    assert!(execution_settled(ExecutionOutcome::Accepted));
    assert!(execution_settled(ExecutionOutcome::AlreadyExecuted));
    assert!(!execution_settled(ExecutionOutcome::TransientFailure));
}

use vault_client::payment::{payment_instruction, OpenRequest};
use vault_client::types::BtcAddress;

#[test]
fn payment_carries_request_id_in_op_return() {
    let req = OpenRequest {
        id: id(0x33),
        btc_address: BtcAddress { bytes: vec![8; 20] },
        amount: 12_345,
    };
    let pay = payment_instruction(&req);
    assert_eq!(pay.btc_address.bytes, vec![8; 20]);
    assert_eq!(pay.amount, 12_345);
    let carried = decode_op_return(&pay.op_return).unwrap();
    assert_eq!(carried.bytes, vec![0x33; 32]);
}
