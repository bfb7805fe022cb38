//! What the forwarder answers, and what becomes of it.
use crate::account::shard_in;
use crate::codec::InstructionModel;
use crate::data::DATA_MAX_LENGTH;
use crate::model::{DueModel, RunModel, TraversalModel};
use crate::namespace_forwarder::{
    forwarded, respond, run, write_fits, ProgramCall, ProgramInput, Response, RunError,
};
use crate::position::{AccountId, Position};
use crate::program::{inputs_view, BalanceDiff, Input, InputModel, ProgramOutput};
use crate::traversal_laws::law_answers_write_what_they_say;
use vstd::prelude::*;

verus! {

/// The forwarder reports the position it was handed as it was handed it; behind it, where it is
/// told to write, a fresh account at the target with all the bytes it is told to write under its
/// own namespace; and it chains every call that it is told to, in order, at the one position that
/// comes with it. It grants nothing and is valid at every time.
pub proof fn law_forwarders_answer_as_told(
    program: AccountId,
    caller: Option<AccountId>,
    own: InputModel,
    instruction: InstructionModel,
    data: Seq<u8>,
    i: int,
)
    ensures
        ({
            let answer = forwarded(program, caller, own, instruction, data);
            &&& answer.self_account_id == program
            &&& answer.caller_account_id == caller
            &&& answer.instruction_data == data
            &&& answer.validity_window.from is None && answer.validity_window.to is None
            &&& answer.state_diffs.len() == if instruction.own_write is Some {
                2int
            } else {
                1int
            }
            &&& answer.state_diffs[0].pre == own
            &&& answer.state_diffs[0].post_data == own.data
            &&& answer.state_diffs[0].balance_diff == BalanceDiff::Add(0)
            &&& instruction.own_write matches Some(write) ==> {
                let diff = answer.state_diffs[1];
                &&& diff.pre.account_id == write.0
                &&& !diff.pre.is_authorized
                &&& diff.pre.balance == 0
                &&& diff.pre.namespace == Some(program)
                &&& diff.pre.data.len() == 0
                &&& diff.balance_diff == BalanceDiff::Add(0)
                &&& diff.post_data == write.1
            }
            &&& answer.chained_calls.len() == instruction.calls.len()
            &&& 0 <= i < instruction.calls.len() ==> {
                let call = answer.chained_calls[i];
                &&& call.program_account_id == instruction.calls[i].0
                &&& call.positions.len() == 1
                &&& call.positions[0] == instruction.calls[i].1
                &&& call.instruction_data == instruction.calls[i].2
                &&& call.pda_seeds.len() == 0
            }
        }),
{
}

/// A write fits where it is no longer than a shard can be.
pub proof fn law_writes_fit_up_to_the_limit(instruction: InstructionModel)
    ensures
        write_fits(instruction) <==> instruction.own_write is None || (
        instruction.own_write->0).1.len() <= 716_800,
        DATA_MAX_LENGTH == 716_800,
{
}

/// A run on the bytes of an instruction: it is refused where the write exceeds a shard, silent
/// where it is not handed one position, and else says of each write and each call what the
/// instruction says.
pub proof fn law_runs_follow_the_instruction(
    program: AccountId,
    caller: Option<AccountId>,
    pre_states: Vec<Input>,
    data: Vec<u8>,
    value: InstructionModel,
    result: Result<Response, RunError>,
    i: int,
)
    requires
        call_ensures(run, (program, caller, pre_states, data), result),
        value.encodable(),
        value.encoded() == data@,
    ensures
        pre_states@.len() != 1 ==> result is Ok && result->Ok_0 is Silent,
        pre_states@.len() == 1 ==> (result is Err <==> value.own_write is Some && (
        value.own_write->0).1.len() > 716_800),
        result is Err ==> result->Err_0 is WriteTooBig,
        pre_states@.len() == 1 && result is Ok ==> {
            let answer = (result->Ok_0->Output_0)@;
            &&& result->Ok_0 is Output
            &&& answer.state_diffs.len() == if value.own_write is Some {
                2int
            } else {
                1int
            }
            &&& answer.state_diffs[0].pre == pre_states@[0]@
            &&& answer.state_diffs[0].post_data == pre_states@[0].data@
            &&& value.own_write matches Some(write) ==> answer.state_diffs[1].pre.account_id
                == write.0 && answer.state_diffs[1].pre.namespace == Some(program)
                && answer.state_diffs[1].post_data == write.1
            &&& answer.chained_calls.len() == value.calls.len()
            &&& 0 <= i < value.calls.len() ==> answer.chained_calls[i].program_account_id
                == value.calls[i].0 && answer.chained_calls[i].positions == seq![value.calls[i].1]
                && answer.chained_calls[i].instruction_data == value.calls[i].2
        },
{
    if pre_states@.len() == 1 && result is Ok {
        law_forwarders_answer_as_told(program, caller, pre_states@[0]@, value, data@, i);
        let answer = (result->Ok_0->Output_0)@;
        if 0 <= i < value.calls.len() {
            assert(answer.chained_calls[i].positions =~= seq![value.calls[i].1]);
        }
    }
}

/// A write that the forwarder is told to make and that is accepted stands whole at its target,
/// under the forwarder's namespace: as many bytes as told, and each of them.
pub proof fn law_own_writes_land_whole(
    m: TraversalModel,
    due: RunModel,
    pre_states: Vec<Input>,
    data: Vec<u8>,
    value: InstructionModel,
    output: ProgramOutput,
    granted: Seq<Seq<AccountId>>,
    target: AccountId,
    bytes: Seq<u8>,
)
    requires
        m.due() == DueModel::Run(due),
        due.pre_states.len() == 1,
        inputs_view(pre_states@) == due.pre_states,
        data@ == due.instruction_data,
        value.encodable(),
        value.encoded() == data@,
        value.own_write == Some((target, bytes)),
        call_ensures(
            run,
            (due.program, due.caller, pre_states, data),
            Ok::<Response, RunError>(Response::Output(output)),
        ),
        m.accepts(due.program, output@),
    ensures
        ({
            let shard = shard_in(
                m.ran(output@, granted).current,
                Position { account_id: target, namespace: Some(due.program) },
            );
            &&& shard.len() == bytes.len()
            &&& forall|i: int| 0 <= i < bytes.len() ==> #[trigger] shard[i] == bytes[i]
        }),
{
    assert(pre_states@.len() == 1);
    law_runs_follow_the_instruction(
        due.program,
        due.caller,
        pre_states,
        data,
        value,
        Ok(Response::Output(output)),
        0,
    );
    law_answers_write_what_they_say(m, output@, granted, 1);
}

/// The same of an answer to a decoded instruction: the write that the caller put into it is the
/// write that stands there.
pub proof fn law_told_writes_land_whole(
    m: TraversalModel,
    input: ProgramInput,
    data: Vec<u8>,
    output: ProgramOutput,
    granted: Seq<Seq<AccountId>>,
)
    requires
        m.due() is Run,
        m.pending.last().program == input.self_account_id,
        input.pre_states@.len() == 1,
        input.instruction.0 is Some,
        (input.instruction.0->0).1@.len() <= 716_800,
        call_ensures(respond, (ProgramCall::Execute(input, data),), Response::Output(output)),
        m.accepts(input.self_account_id, output@),
    ensures
        shard_in(
            m.ran(output@, granted).current,
            Position {
                account_id: (input.instruction.0->0).0,
                namespace: Some(input.self_account_id),
            },
        ) == (input.instruction.0->0).1@,
{
    assert(output@.state_diffs[1] == output.state_diffs@[1]@);
    law_answers_write_what_they_say(m, output@, granted, 1);
}

} // verus!
