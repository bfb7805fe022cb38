//! The forwarder: a program that writes its own shard where it is told to and chains calls at
//! positions that it is given.
use crate::codec::InstructionModel;
use crate::data::{copy_bytes, Data, DATA_MAX_LENGTH};
use crate::instruction::{
    call_view, decode_instruction, forward_calls_view, instruction_view, Instruction,
};
use crate::position::{AccountId, Position};
use crate::program::{
    calls_view, diffs_view, BalanceDiff, ChainedCall, ChainedCallModel, Input, InputModel,
    InstructionData, ProgramOutput, ProgramOutputModel, ShardStateDiff, ShardStateDiffModel,
    ValidityWindow,
};
use vstd::prelude::*;

verus! {

/// What a program is run with.
pub struct ProgramInput {
    pub self_account_id: AccountId,
    pub caller_account_id: Option<AccountId>,
    pub pre_states: Vec<Input>,
    pub instruction: Instruction,
}

/// What a program is asked to do.
pub enum ProgramCall {
    /// Run on the given input; the encoded instruction comes along.
    Execute(ProgramInput, InstructionData),
    /// Anything this program does not answer.
    Other,
}

/// What the forwarder answers to a call.
pub enum Response {
    /// The call asks for something other than a run.
    UnsupportedCall,
    /// The run was not handed exactly one position and ends without an answer.
    Silent,
    Output(ProgramOutput),
}

/// A forwarder's write: at an account of the caller's choosing, under the forwarder's own
/// namespace, over a fresh public account with no balance and no bytes there.
pub open spec fn own_write_diff(
    self_account_id: AccountId,
    write: (AccountId, Seq<u8>),
) -> ShardStateDiffModel {
    ShardStateDiffModel {
        pre: InputModel {
            account_id: write.0,
            is_authorized: false,
            balance: 0,
            namespace: Some(self_account_id),
            data: Seq::empty(),
        },
        balance_diff: BalanceDiff::Add(0),
        post_data: write.1,
    }
}

/// One forwarded call: the callee and instruction as given, at the one position given.
pub open spec fn forwarded_call(call: (AccountId, Position, Seq<u8>)) -> ChainedCallModel {
    ChainedCallModel {
        program_account_id: call.0,
        instruction_data: call.2,
        positions: seq![call.1],
        pda_seeds: Seq::empty(),
    }
}

/// The forwarder's answer: the position it was handed is unchanged, its own write follows
/// where there is one, and every call is chained in order.
pub open spec fn forwarded(
    self_account_id: AccountId,
    caller_account_id: Option<AccountId>,
    own: InputModel,
    instruction: InstructionModel,
    instruction_data: Seq<u8>,
) -> ProgramOutputModel {
    ProgramOutputModel {
        self_account_id,
        caller_account_id,
        instruction_data,
        state_diffs: seq![ShardStateDiffModel::unchanged(own)] + match instruction.own_write {
            Some(write) => seq![own_write_diff(self_account_id, write)],
            None => Seq::empty(),
        },
        chained_calls: instruction.calls.map_values(
            |call: (AccountId, Position, Seq<u8>)| forwarded_call(call),
        ),
        validity_window: ValidityWindow::always(),
    }
}

/// The write fits a shard.
pub open spec fn write_fits(instruction: InstructionModel) -> bool {
    instruction.own_write matches Some(write) ==> write.1.len() <= DATA_MAX_LENGTH
}

/// Chains every call at the one position that comes with it.
fn chain_calls(callees: &Vec<(AccountId, Position, InstructionData)>) -> (calls: Vec<ChainedCall>)
    ensures
        calls_view(calls@) == forward_calls_view(callees@).map_values(
            |call: (AccountId, Position, Seq<u8>)| forwarded_call(call),
        ),
        calls@.len() == callees@.len(),
        forall|i: int|
            0 <= i < calls@.len() ==> {
                let made = #[trigger] calls@[i];
                &&& made.program_account_id == callees@[i].0
                &&& made.positions@.len() == 1 && made.positions@[0] == callees@[i].1
                &&& made.instruction_data@ == callees@[i].2@
                &&& made.pda_seeds@.len() == 0
            },
{
    let mut calls: Vec<ChainedCall> = Vec::new();
    let mut i: usize = 0;
    while i < callees.len()
        invariant
            i <= callees@.len(),
            calls@.len() == i,
            forall|j: int|
                0 <= j < i ==> (#[trigger] calls@[j])@ == forwarded_call(call_view(callees@[j])),
            forall|j: int|
                0 <= j < i ==> {
                    let made = #[trigger] calls@[j];
                    &&& made.program_account_id == callees@[j].0
                    &&& made.positions@.len() == 1 && made.positions@[0] == callees@[j].1
                    &&& made.instruction_data@ == callees@[j].2@
                    &&& made.pda_seeds@.len() == 0
                },
        decreases callees.len() - i,
    {
        let (callee, position, callee_instruction) = &callees[i];
        let mut positions: Vec<Position> = Vec::new();
        positions.push(*position);
        let call = ChainedCall {
            program_account_id: *callee,
            instruction_data: copy_bytes(callee_instruction),
            positions,
            pda_seeds: Vec::new(),
        };
        assert(call@ =~= forwarded_call(call_view(callees@[i as int])));
        calls.push(call);
        i = i + 1;
    }
    assert(calls_view(calls@) =~= forward_calls_view(callees@).map_values(
        |call: (AccountId, Position, Seq<u8>)| forwarded_call(call),
    ));
    calls
}

/// Answers one call. The write must fit a shard where the run gets as far as making it.
pub fn respond(call: ProgramCall) -> (response: Response)
    requires
        call matches ProgramCall::Execute(input, _) ==> input.pre_states@.len() == 1 ==> write_fits(
            instruction_view(input.instruction),
        ),
    ensures
        call is Other ==> response is UnsupportedCall,
        call matches ProgramCall::Execute(input, instruction_data) ==> if input.pre_states@.len()
            == 1 {
            response matches Response::Output(output) && output@ == forwarded(
                input.self_account_id,
                input.caller_account_id,
                input.pre_states@[0]@,
                instruction_view(input.instruction),
                instruction_data@,
            )
        } else {
            response is Silent
        },
        call matches ProgramCall::Execute(input, instruction_data) ==> response matches
            Response::Output(output) ==> {
            &&& output.self_account_id == input.self_account_id
            &&& output.caller_account_id == input.caller_account_id
            &&& output.instruction_data@ == instruction_data@
            &&& output.validity_window.from is None && output.validity_window.to is None
            &&& output.state_diffs@.len() == if input.instruction.0 is Some {
                2int
            } else {
                1int
            }
        },
        call matches ProgramCall::Execute(input, _) ==> response matches Response::Output(output)
            ==> {
            let told = input.pre_states@[0];
            let said = output.state_diffs@[0];
            &&& said.pre.account_id == told.account_id
            &&& said.pre.is_authorized == told.is_authorized
            &&& said.pre.balance == told.balance
            &&& said.pre.namespace == told.namespace
            &&& said.pre.data@ == told.data@
            &&& said.balance_diff == BalanceDiff::Add(0)
            &&& said.post_data@ == told.data@
        },
        call matches ProgramCall::Execute(input, _) ==> response matches Response::Output(output)
            ==> input.instruction.0 matches Some(write) ==> {
            let said = output.state_diffs@[1];
            &&& said.pre.account_id == write.0
            &&& !said.pre.is_authorized
            &&& said.pre.balance == 0
            &&& said.pre.namespace == Some(input.self_account_id)
            &&& said.pre.data@.len() == 0
            &&& said.balance_diff == BalanceDiff::Add(0)
            &&& said.post_data@ == write.1@
        },
        call matches ProgramCall::Execute(input, _) ==> response matches Response::Output(output)
            ==> {
            &&& output.chained_calls@.len() == input.instruction.1@.len()
            &&& forall|i: int|
                0 <= i < output.chained_calls@.len() ==> {
                    let made = #[trigger] output.chained_calls@[i];
                    let told = input.instruction.1@[i];
                    &&& made.program_account_id == told.0
                    &&& made.positions@.len() == 1 && made.positions@[0] == told.1
                    &&& made.instruction_data@ == told.2@
                    &&& made.pda_seeds@.len() == 0
                }
        },
{
    let (input, instruction_data) = match call {
        ProgramCall::Execute(input, instruction_data) => (input, instruction_data),
        ProgramCall::Other => {
            return Response::UnsupportedCall;
        },
    };
    let ProgramInput { self_account_id, caller_account_id, pre_states, instruction } = input;
    let (own_write, callees) = instruction;
    if pre_states.len() != 1 {
        return Response::Silent;
    }
    let ghost own_view = pre_states@[0]@;
    let ghost instruction_model = instruction_view((own_write, callees));
    let mut pre_states = pre_states;
    let own = pre_states.swap_remove(0);

    let mut state_diffs: Vec<ShardStateDiff> = Vec::new();
    state_diffs.push(ShardStateDiff::unchanged(own));
    if let Some((target, bytes)) = own_write {
        let fresh = Input::named(target, false, 0, self_account_id, Data::empty());
        let data = Data::try_from(bytes).expect("provided data should fit into data limit");
        state_diffs.push(ShardStateDiff::new(fresh, BalanceDiff::Add(0), data));
    }
    let chained_calls = chain_calls(&callees);
    let ghost wanted = forwarded(
        self_account_id,
        caller_account_id,
        own_view,
        instruction_model,
        instruction_data@,
    );
    assert(diffs_view(state_diffs@) =~= wanted.state_diffs);
    let output = ProgramOutput::new(
        self_account_id,
        caller_account_id,
        instruction_data,
        state_diffs,
    ).with_chained_calls(chained_calls);
    Response::Output(output)
}

/// Why a run cannot be made.
#[derive(Clone, Copy, Debug, PartialEq, Eq, Structural)]
pub enum RunError {
    /// The bytes encode no instruction.
    MalformedInstruction,
    /// The write exceeds what a shard holds.
    WriteTooBig,
}

/// Runs the forwarder on an encoded instruction.
pub fn run(
    self_account_id: AccountId,
    caller_account_id: Option<AccountId>,
    pre_states: Vec<Input>,
    instruction_data: InstructionData,
) -> (r: Result<Response, RunError>)
    ensures
        (forall|value: InstructionModel|
            value.encodable() ==> #[trigger] value.encoded() != instruction_data@) ==> r == Err::<
            Response,
            RunError,
        >(RunError::MalformedInstruction),
        forall|value: InstructionModel|
            value.encodable() && #[trigger] value.encoded() == instruction_data@ ==> if pre_states@.len()
                != 1 {
                r matches Ok(response) && response is Silent
            } else if !write_fits(value) {
                r == Err::<Response, RunError>(RunError::WriteTooBig)
            } else {
                r matches Ok(response) && response matches Response::Output(output) && output@
                    == forwarded(
                    self_account_id,
                    caller_account_id,
                    pre_states@[0]@,
                    value,
                    instruction_data@,
                )
            },
{
    let instruction = match decode_instruction(&instruction_data) {
        Ok(instruction) => instruction,
        Err(_) => {
            return Err(RunError::MalformedInstruction);
        },
    };
    if pre_states.len() == 1 {
        if let Some(write) = &instruction.0 {
            if write.1.len() > DATA_MAX_LENGTH {
                return Err(RunError::WriteTooBig);
            }
        }
    }
    let input = ProgramInput { self_account_id, caller_account_id, pre_states, instruction };
    Ok(respond(ProgramCall::Execute(input, instruction_data)))
}

} // verus!
