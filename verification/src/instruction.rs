//! Building and reading the instructions of the programs that a transaction chains.
use crate::codec::{
    borsh_read_instruction, borsh_write_bytes, borsh_write_instruction, borsh_write_spend,
    encoded_bytes, law_encoding_is_injective, le_bytes, raw_call, raw_instruction,
    InstructionModel, RawCall,
};
use crate::data::copy_bytes;
use crate::position::{AccountId, Position};
use crate::program::{InstructionData, PdaSeed};
use vstd::prelude::*;

verus! {

/// The forwarder's instruction: an optional write at an account of the caller's choosing
/// under the forwarder's own namespace, then one chained call per callee, position and
/// instruction.
pub type Instruction = (
    Option<(AccountId, Vec<u8>)>,
    Vec<(AccountId, Position, InstructionData)>,
);

pub open spec fn call_view(call: (AccountId, Position, Vec<u8>)) -> (
    AccountId,
    Position,
    Seq<u8>,
) {
    (call.0, call.1, call.2@)
}

pub open spec fn forward_calls_view(calls: Seq<(AccountId, Position, Vec<u8>)>) -> Seq<
    (AccountId, Position, Seq<u8>),
> {
    calls.map_values(|call: (AccountId, Position, Vec<u8>)| call_view(call))
}

pub open spec fn instruction_view(instruction: Instruction) -> InstructionModel {
    InstructionModel {
        own_write: match instruction.0 {
            Some(write) => Some((write.0, write.1@)),
            None => None,
        },
        calls: forward_calls_view(instruction.1@),
    }
}

/// Bytes that encode no instruction.
#[derive(Clone, Copy, Debug, PartialEq, Eq)]
pub struct MalformedInstruction;

/// Copies a slice of bytes into a vector.
pub fn slice_to_vec(bytes: &[u8]) -> (copy: Vec<u8>)
    ensures
        copy@ == bytes@,
{
    let mut copy: Vec<u8> = Vec::new();
    copy.extend_from_slice(bytes);
    assert(copy@ =~= bytes@);
    copy
}

/// Encodes the forwarder's instruction.
pub fn forwarder_instruction(
    own_write: Option<(AccountId, &[u8])>,
    calls: &[(AccountId, Position, Vec<u8>)],
) -> (bytes: Vec<u8>)
    requires
        own_write matches Some(write) ==> write.1@.len() <= u32::MAX,
        calls@.len() <= u32::MAX,
        forall|i: int| 0 <= i < calls@.len() ==> (#[trigger] calls@[i]).2@.len() <= u32::MAX,
    ensures
        bytes@ == (InstructionModel {
            own_write: match own_write {
                Some(write) => Some((write.0, write.1@)),
                None => None,
            },
            calls: forward_calls_view(calls@),
        }).encoded(),
{
    let raw_write: Option<([u8; 32], Vec<u8>)> = match own_write {
        Some((target, bytes)) => Some((target.value, slice_to_vec(bytes))),
        None => None,
    };
    let mut raw_calls: Vec<RawCall> = Vec::new();
    let mut i: usize = 0;
    while i < calls.len()
        invariant
            i <= calls@.len(),
            raw_calls@.len() == i,
            forall|j: int| 0 <= j < i ==> raw_call(#[trigger] raw_calls@[j]) == call_view(calls@[j]),
        decreases calls.len() - i,
    {
        let call = &calls[i];
        let namespace: Option<[u8; 32]> = match call.1.namespace {
            Some(id) => Some(id.value),
            None => None,
        };
        raw_calls.push((call.0.value, (call.1.account_id.value, namespace), copy_bytes(&call.2)));
        i = i + 1;
    }
    let raw = (raw_write, raw_calls);
    let ghost model = InstructionModel {
        own_write: match own_write {
            Some(write) => Some((write.0, write.1@)),
            None => None,
        },
        calls: forward_calls_view(calls@),
    };
    proof {
        assert(raw_instruction(raw).calls =~= model.calls);
        assert(raw_instruction(raw) =~= model);
    }
    borsh_write_instruction(&raw).unwrap()
}

/// Reads what [`forwarder_instruction`] wrote.
pub fn decode_instruction(bytes: &Vec<u8>) -> (r: Result<Instruction, MalformedInstruction>)
    ensures
        r matches Ok(instruction) ==> instruction_view(instruction).encodable()
            && instruction_view(instruction).encoded() == bytes@,
        r is Err ==> forall|value: InstructionModel|
            value.encodable() ==> #[trigger] value.encoded() != bytes@,
        forall|value: InstructionModel|
            value.encodable() && #[trigger] value.encoded() == bytes@ ==> (r matches Ok(instruction)
                && instruction_view(instruction) == value),
{
    let (raw_write, raw_calls) = match borsh_read_instruction(bytes) {
        Ok(raw) => raw,
        Err(_) => {
            return Err(MalformedInstruction);
        },
    };
    let ghost model = raw_instruction((raw_write, raw_calls));
    let own_write: Option<(AccountId, Vec<u8>)> = match raw_write {
        Some((target, bytes)) => Some((AccountId { value: target }, bytes)),
        None => None,
    };
    let mut calls: Vec<(AccountId, Position, InstructionData)> = Vec::new();
    let mut i: usize = 0;
    while i < raw_calls.len()
        invariant
            i <= raw_calls@.len(),
            calls@.len() == i,
            forall|j: int| 0 <= j < i ==> call_view(#[trigger] calls@[j]) == raw_call(raw_calls@[j]),
        decreases raw_calls.len() - i,
    {
        let raw = &raw_calls[i];
        let namespace: Option<AccountId> = match raw.1.1 {
            Some(value) => Some(AccountId { value }),
            None => None,
        };
        let position = Position { account_id: AccountId { value: raw.1.0 }, namespace };
        calls.push((AccountId { value: raw.0 }, position, copy_bytes(&raw.2)));
        i = i + 1;
    }
    let instruction: Instruction = (own_write, calls);
    proof {
        assert(instruction_view(instruction).calls =~= model.calls);
        assert(instruction_view(instruction) =~= model);
        assert forall|value: InstructionModel|
            value.encodable() && #[trigger] value.encoded() == bytes@ implies instruction_view(
            instruction,
        ) == value by {
            law_encoding_is_injective(instruction_view(instruction), value);
        }
    }
    Ok(instruction)
}

/// What [`calls_at`] makes of one callee and its instruction.
pub open spec fn call_at(account_id: AccountId, call: (AccountId, Vec<u8>)) -> (
    AccountId,
    Position,
    Seq<u8>,
) {
    (call.0, Position { account_id, namespace: Some(call.0) }, call.1@)
}

/// Aims every call at the callee's own namespace on `account_id`.
pub fn calls_at(account_id: AccountId, calls: &[(AccountId, Vec<u8>)]) -> (aimed: Vec<
    (AccountId, Position, Vec<u8>),
>)
    ensures
        forward_calls_view(aimed@) == calls@.map_values(
            |call: (AccountId, Vec<u8>)| call_at(account_id, call),
        ),
        aimed@.len() == calls@.len(),
        forall|i: int|
            0 <= i < aimed@.len() ==> {
                let made = #[trigger] aimed@[i];
                &&& made.0 == calls@[i].0
                &&& made.1 == (Position { account_id, namespace: Some(calls@[i].0) })
                &&& made.2@ == calls@[i].1@
            },
{
    let mut aimed: Vec<(AccountId, Position, Vec<u8>)> = Vec::new();
    let mut i: usize = 0;
    while i < calls.len()
        invariant
            i <= calls@.len(),
            aimed@.len() == i,
            forall|j: int|
                0 <= j < i ==> call_view(#[trigger] aimed@[j]) == call_at(account_id, calls@[j]),
            forall|j: int|
                0 <= j < i ==> {
                    let made = #[trigger] aimed@[j];
                    &&& made.0 == calls@[j].0
                    &&& made.1 == (Position { account_id, namespace: Some(calls@[j].0) })
                    &&& made.2@ == calls@[j].1@
                },
        decreases calls.len() - i,
    {
        let call = &calls[i];
        aimed.push((call.0, Position::new(account_id, call.0), copy_bytes(&call.1)));
        i = i + 1;
    }
    assert(forward_calls_view(aimed@) =~= calls@.map_values(
        |call: (AccountId, Vec<u8>)| call_at(account_id, call),
    ));
    aimed
}

/// Encodes the instruction of a program that writes the bytes it is given.
pub fn data_changer_instruction(write: &[u8]) -> (bytes: Vec<u8>)
    requires
        write@.len() <= u32::MAX,
    ensures
        bytes@ == encoded_bytes(write@),
{
    borsh_write_bytes(&slice_to_vec(write)).unwrap()
}

/// The forwarding instruction that has `callee_id` write `write` at `account_id`.
pub open spec fn forwarded_write(
    account_id: AccountId,
    callee_id: AccountId,
    write: Seq<u8>,
) -> InstructionModel {
    InstructionModel {
        own_write: None,
        calls: seq![
            (
                callee_id,
                Position { account_id, namespace: Some(callee_id) },
                encoded_bytes(write),
            ),
        ],
    }
}

/// Encodes an instruction to forward one write.
pub fn forward_to(account_id: AccountId, callee_id: AccountId, write: &[u8]) -> (bytes: Vec<u8>)
    requires
        write@.len() + 4 <= u32::MAX,
    ensures
        bytes@ == forwarded_write(account_id, callee_id, write@).encoded(),
{
    let mut calls: Vec<(AccountId, Vec<u8>)> = Vec::new();
    calls.push((callee_id, data_changer_instruction(write)));
    let aimed = calls_at(account_id, calls.as_slice());
    proof {
        let model = forward_calls_view(aimed@);
        assert(aimed@.len() == model.len());
        assert(call_view(aimed@[0]) == model[0]);
        assert(model =~= forwarded_write(account_id, callee_id, write@).calls);
    }
    forwarder_instruction(None, aimed.as_slice())
}

/// Encodes the instruction of a program that spends `amount` of the account that `seed`
/// derives, through the transfer program at `transfer_id`.
pub fn spend_instruction(seed: PdaSeed, amount: u128, transfer_id: AccountId) -> (bytes: Vec<u8>)
    ensures
        bytes@ == seed.value@ + le_bytes(amount as nat, 16) + transfer_id.value@,
{
    borsh_write_spend(&(seed.value, amount, transfer_id.value)).unwrap()
}

} // verus!
