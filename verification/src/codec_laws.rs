//! What instructions look like as bytes, and that nothing is lost on the way there and back.
use crate::codec::{
    encoded_bytes, encoded_call, encoded_calls, encoded_position, le32, le_bytes, raw_call,
    raw_instruction, raw_position, InstructionModel, RawCall, RawInstruction,
};
use crate::instruction::{
    call_at, call_view, calls_at, data_changer_instruction, decode_instruction,
    forward_calls_view, forward_to, forwarded_write, forwarder_instruction, instruction_view,
    spend_instruction, Instruction, MalformedInstruction,
};
use crate::position::{AccountId, Position};
use crate::program::PdaSeed;
use vstd::arithmetic::power::{lemma_pow0, pow};
use vstd::prelude::*;

verus! {

/// A length takes four bytes, and the bytes weigh up to the length, the first the least.
pub proof fn law_lengths_weigh_up(n: nat)
    requires
        n <= u32::MAX,
    ensures
        le32(n).len() == 4,
        le32(n)[0] + 256 * le32(n)[1] + 65536 * le32(n)[2] + 16777216 * le32(n)[3] == n,
{
}

/// What bytes weigh, the first the least.
pub open spec fn weight(bytes: Seq<u8>) -> nat
    decreases bytes.len(),
{
    if bytes.len() == 0 {
        0
    } else {
        bytes.first() as nat + 256 * weight(bytes.drop_first())
    }
}

/// A number takes as many bytes as it is given, and they weigh up to the number where it fits.
pub proof fn law_numbers_weigh_up(n: nat, count: nat)
    requires
        n < pow(256, count),
    ensures
        le_bytes(n, count).len() == count,
        weight(le_bytes(n, count)) == n,
    decreases count,
{
    lemma_pow0(256);
    if count > 0 {
        let rest = (count - 1) as nat;
        assert(pow(256, count) == 256 * pow(256, rest)) by {
            reveal(pow);
        }
        assert(n / 256 < pow(256, rest)) by (nonlinear_arith)
            requires
                n < 256 * pow(256, rest),
        ;
        law_numbers_weigh_up(n / 256, rest);
        assert(le_bytes(n, count).first() == (n % 256) as u8);
        assert(le_bytes(n, count).drop_first() =~= le_bytes(n / 256, rest));
    }
}

/// A byte string is its length and then each of its bytes, in order.
pub proof fn law_byte_strings_are_written_whole(bytes: Seq<u8>, i: int)
    ensures
        encoded_bytes(bytes).len() == 4 + bytes.len(),
        encoded_bytes(bytes).take(4) == le32(bytes.len()),
        0 <= i < bytes.len() ==> encoded_bytes(bytes)[4 + i] == bytes[i],
{
    assert(encoded_bytes(bytes).take(4) =~= le32(bytes.len()));
}

/// A position is its account, a flag, and its namespace where it has one.
pub proof fn law_positions_are_written_whole(position: Position)
    ensures
        encoded_position(position).take(32) == position.account_id.value@,
        position.namespace is None ==> encoded_position(position).len() == 33 && encoded_position(
            position,
        )[32] == 0,
        position.namespace is Some ==> encoded_position(position).len() == 65 && encoded_position(
            position,
        )[32] == 1 && encoded_position(position).skip(33) == (position.namespace->0).value@,
{
    assert(encoded_position(position).take(32) =~= position.account_id.value@);
    if position.namespace is Some {
        assert(encoded_position(position).skip(33) =~= (position.namespace->0).value@);
    }
}

/// A call is its callee, its position and its instruction, one after another; calls follow each
/// other with nothing between.
pub proof fn law_calls_are_written_whole(
    call: (AccountId, Position, Seq<u8>),
    first: Seq<(AccountId, Position, Seq<u8>)>,
    then: Seq<(AccountId, Position, Seq<u8>)>,
)
    ensures
        encoded_call(call) == call.0.value@ + encoded_position(call.1) + encoded_bytes(call.2),
        encoded_calls(seq![call]) == encoded_call(call),
        encoded_calls(first + then) == encoded_calls(first) + encoded_calls(then),
    decreases first.len(),
{
    assert(encoded_call(call) =~= call.0.value@ + encoded_position(call.1) + encoded_bytes(call.2));
    reveal_with_fuel(encoded_calls, 2);
    assert(seq![call].drop_first() =~= Seq::empty());
    assert(encoded_calls(seq![call]) =~= encoded_call(call));
    if first.len() == 0 {
        assert(first + then =~= then);
        assert(encoded_calls(first) + encoded_calls(then) =~= encoded_calls(then));
    } else {
        law_calls_are_written_whole(call, first.drop_first(), then);
        assert((first + then).drop_first() =~= first.drop_first() + then);
        assert((first + then).first() == first.first());
        assert(encoded_calls(first + then) =~= encoded_calls(first) + encoded_calls(then));
    }
}

/// An instruction is a flag with the write where there is one, then the number of calls and the
/// calls. It can be written exactly where each length fits four bytes.
pub proof fn law_instructions_are_written_whole(value: InstructionModel)
    ensures
        value.own_write is None ==> value.encoded() == seq![0u8] + le32(value.calls.len())
            + encoded_calls(value.calls),
        value.own_write matches Some(write) ==> value.encoded() == seq![1u8] + write.0.value@
            + encoded_bytes(write.1) + le32(value.calls.len()) + encoded_calls(value.calls),
        value.encodable() <==> {
            &&& value.own_write is Some ==> (value.own_write->0).1.len() < 0x1_0000_0000
            &&& value.calls.len() < 0x1_0000_0000
            &&& forall|i: int|
                0 <= i < value.calls.len() ==> (#[trigger] value.calls[i]).2.len() < 0x1_0000_0000
        },
{
    match value.own_write {
        Some(write) => {
            assert(value.encoded() =~= seq![1u8] + write.0.value@ + encoded_bytes(write.1) + le32(
                value.calls.len(),
            ) + encoded_calls(value.calls));
        },
        None => {
            assert(value.encoded() =~= seq![0u8] + le32(value.calls.len()) + encoded_calls(
                value.calls,
            ));
        },
    }
}

/// An instruction counts with its write and with each of its calls, in order and whole.
pub proof fn law_instructions_count_whole(instruction: Instruction, i: int)
    ensures
        instruction.0 is None <==> instruction_view(instruction).own_write is None,
        instruction.0 matches Some(write) ==> instruction_view(instruction).own_write == Some(
            (write.0, write.1@),
        ),
        instruction_view(instruction).calls.len() == instruction.1@.len(),
        0 <= i < instruction.1@.len() ==> instruction_view(instruction).calls[i] == (
            instruction.1@[i].0,
            instruction.1@[i].1,
            instruction.1@[i].2@,
        ),
        forward_calls_view(instruction.1@) == instruction_view(instruction).calls,
        0 <= i < instruction.1@.len() ==> call_view(instruction.1@[i])
            == instruction_view(instruction).calls[i],
{
}

/// The types that are handed to the encoder stand for the values they hold.
pub proof fn law_raw_values_count_whole(raw: RawInstruction, call: RawCall, i: int)
    ensures
        raw_position(call.1).account_id.value == call.1.0,
        call.1.1 is None <==> raw_position(call.1).namespace is None,
        call.1.1 matches Some(value) ==> raw_position(call.1).namespace == Some(AccountId { value }),
        raw_call(call).0.value == call.0,
        raw_call(call).1 == raw_position(call.1),
        raw_call(call).2 == call.2@,
        raw.0 is None <==> raw_instruction(raw).own_write is None,
        raw.0 matches Some(write) ==> raw_instruction(raw).own_write == Some(
            (AccountId { value: write.0 }, write.1@),
        ),
        raw_instruction(raw).calls.len() == raw.1@.len(),
        0 <= i < raw.1@.len() ==> raw_instruction(raw).calls[i] == raw_call(raw.1@[i]),
{
}

/// Reading gives back what was written: the same write, and the same calls in the same order,
/// each byte of them.
pub proof fn law_instructions_survive_the_way_there_and_back(
    own_write: Option<(AccountId, &[u8])>,
    calls: &[(AccountId, Position, Vec<u8>)],
    bytes: Vec<u8>,
    read: Result<Instruction, MalformedInstruction>,
    i: int,
)
    requires
        own_write matches Some(write) ==> write.1@.len() <= u32::MAX,
        calls@.len() <= u32::MAX,
        forall|j: int| 0 <= j < calls@.len() ==> (#[trigger] calls@[j]).2@.len() <= u32::MAX,
        call_ensures(forwarder_instruction, (own_write, calls), bytes),
        call_ensures(decode_instruction, (&bytes,), read),
    ensures
        read is Ok,
        (read->Ok_0).0 is None <==> own_write is None,
        own_write matches Some(write) ==> ((read->Ok_0).0->0).0 == write.0 && ((read->Ok_0).0->0).1@
            == write.1@,
        (read->Ok_0).1@.len() == calls@.len(),
        0 <= i < calls@.len() ==> {
            let there = calls@[i];
            let back = (read->Ok_0).1@[i];
            back.0 == there.0 && back.1 == there.1 && back.2@ == there.2@
        },
{
    let value = InstructionModel {
        own_write: match own_write {
            Some(write) => Some((write.0, write.1@)),
            None => None,
        },
        calls: forward_calls_view(calls@),
    };
    assert(bytes@ == value.encoded());
    assert forall|j: int| 0 <= j < value.calls.len() implies (#[trigger] value.calls[j]).2.len()
        <= u32::MAX by {
        assert(value.calls[j].2 == calls@[j].2@);
    }
    assert(value.encodable());
    let got = read->Ok_0;
    assert(instruction_view(got) == value);
    law_instructions_count_whole(got, i);
    assert(instruction_view(got).calls == value.calls);
    if 0 <= i < calls@.len() {
        assert(value.calls[i] == (calls@[i].0, calls@[i].1, calls@[i].2@));
    }
}

/// The byte instruction of a write is the write behind four bytes of length.
pub proof fn law_byte_instructions_hold_the_write(write: &[u8], bytes: Vec<u8>, i: int)
    requires
        write@.len() <= u32::MAX,
        call_ensures(data_changer_instruction, (write,), bytes),
    ensures
        bytes@.len() == 4 + write@.len(),
        bytes@[0] + 256 * bytes@[1] + 65536 * bytes@[2] + 16777216 * bytes@[3] == write@.len(),
        0 <= i < write@.len() ==> bytes@[4 + i] == write@[i],
{
    law_lengths_weigh_up(write@.len());
    law_byte_strings_are_written_whole(write@, i);
    assert(bytes@.take(4) == le32(write@.len()));
    assert(bytes@[0] == bytes@.take(4)[0] && bytes@[1] == bytes@.take(4)[1] && bytes@[2]
        == bytes@.take(4)[2] && bytes@[3] == bytes@.take(4)[3]);
}

/// A forwarded write is one call, of the callee, at the callee's own shard of the account, with
/// the byte instruction of the write; aimed calls are aimed the same way, one for one.
pub proof fn law_forwarded_writes_are_one_call(
    account_id: AccountId,
    callee_id: AccountId,
    write: Seq<u8>,
    call: (AccountId, Vec<u8>),
)
    ensures
        forwarded_write(account_id, callee_id, write).own_write is None,
        forwarded_write(account_id, callee_id, write).calls.len() == 1,
        forwarded_write(account_id, callee_id, write).calls[0].0 == callee_id,
        forwarded_write(account_id, callee_id, write).calls[0].1.account_id == account_id,
        forwarded_write(account_id, callee_id, write).calls[0].1.namespace == Some(callee_id),
        forwarded_write(account_id, callee_id, write).calls[0].2.len() == 4 + write.len(),
        forwarded_write(account_id, callee_id, write).calls[0].2.skip(4) == write,
        call_at(account_id, call).0 == call.0,
        call_at(account_id, call).1 == (Position { account_id, namespace: Some(call.0) }),
        call_at(account_id, call).2 == call.1@,
{
    assert(forwarded_write(account_id, callee_id, write).calls[0].2.skip(4) =~= write);
}

/// Forwarding a write is forwarding the one aimed call that carries its byte instruction.
pub proof fn law_forwarding_is_aiming_and_writing(
    account_id: AccountId,
    callee_id: AccountId,
    write: &[u8],
    inner: Vec<u8>,
    aimed: Vec<(AccountId, Position, Vec<u8>)>,
    calls: &[(AccountId, Vec<u8>)],
    slice: &[(AccountId, Position, Vec<u8>)],
    direct: Vec<u8>,
    composed: Vec<u8>,
)
    requires
        write@.len() + 4 <= u32::MAX,
        call_ensures(data_changer_instruction, (write,), inner),
        calls@.len() == 1,
        calls@[0].0 == callee_id,
        calls@[0].1@ == inner@,
        call_ensures(calls_at, (account_id, calls), aimed),
        slice@ == aimed@,
        call_ensures(forwarder_instruction, (None::<(AccountId, &[u8])>, slice), composed),
        call_ensures(forward_to, (account_id, callee_id, write), direct),
    ensures
        direct@ == composed@,
{
    assert(forward_calls_view(slice@) =~= forwarded_write(account_id, callee_id, write@).calls);
}

/// A spend instruction is the seed, sixteen bytes that weigh up to the amount, and the address of
/// the transfer program.
pub proof fn law_spend_instructions_are_written_whole(
    seed: PdaSeed,
    amount: u128,
    transfer_id: AccountId,
    bytes: Vec<u8>,
)
    requires
        call_ensures(spend_instruction, (seed, amount, transfer_id), bytes),
    ensures
        bytes@.len() == 80,
        bytes@.take(32) == seed.value@,
        weight(bytes@.subrange(32, 48)) == amount,
        bytes@.skip(48) == transfer_id.value@,
{
    assert(pow(256, 16) > u128::MAX) by {
        lemma_pow0(256);
        reveal_with_fuel(pow, 17);
    }
    law_numbers_weigh_up(amount as nat, 16);
    assert(bytes@.take(32) =~= seed.value@);
    assert(bytes@.subrange(32, 48) =~= le_bytes(amount as nat, 16));
    assert(bytes@.skip(48) =~= transfer_id.value@);
}

} // verus!
