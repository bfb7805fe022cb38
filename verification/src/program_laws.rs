//! What inputs, answers, balances and validity windows say.
use crate::account::{account_in, balance_in, shard_in, AccountModel};
use crate::model::{diff_applied, diffs_applied};
use crate::position::{AccountId, Position};
use crate::program::{
    calls_view, diffs_view, inputs_view, moved_balance, BalanceDiff, ChainedCall, Input,
    InputModel, ProgramOutput, ShardStateDiff, ShardStateDiffModel, ValidityWindow,
};
use vstd::prelude::*;

verus! {

/// An input counts with each of its fields, and with its bytes to the last.
pub proof fn law_inputs_count_whole(input: Input)
    ensures
        input@.account_id == input.account_id,
        input@.is_authorized == input.is_authorized,
        input@.balance == input.balance,
        input@.namespace == input.namespace,
        input@.data == input.data@,
        input@.position() == (Position {
            account_id: input.account_id,
            namespace: input.namespace,
        }),
{
}

/// A diff counts with each of its fields.
pub proof fn law_diffs_count_whole(diff: ShardStateDiff)
    ensures
        diff@.pre == diff.pre@,
        diff@.balance_diff == diff.balance_diff,
        diff@.post_data == diff.post_data@,
{
}

/// A chained call counts with each of its fields.
pub proof fn law_calls_count_whole(call: ChainedCall)
    ensures
        call@.program_account_id == call.program_account_id,
        call@.instruction_data == call.instruction_data@,
        call@.positions == call.positions@,
        call@.pda_seeds == call.pda_seeds@,
{
}

/// Inputs, diffs and calls in a row count one for one, in their order.
pub proof fn law_rows_count_one_for_one(
    inputs: Seq<Input>,
    diffs: Seq<ShardStateDiff>,
    calls: Seq<ChainedCall>,
    i: int,
)
    ensures
        inputs_view(inputs).len() == inputs.len(),
        diffs_view(diffs).len() == diffs.len(),
        calls_view(calls).len() == calls.len(),
        0 <= i < inputs.len() ==> inputs_view(inputs)[i] == inputs[i]@,
        0 <= i < diffs.len() ==> diffs_view(diffs)[i] == diffs[i]@,
        0 <= i < calls.len() ==> calls_view(calls)[i] == calls[i]@,
{
}

/// An answer counts with each of its fields, and with every diff and every call in order.
pub proof fn law_answers_count_whole(output: ProgramOutput, i: int)
    ensures
        output@.self_account_id == output.self_account_id,
        output@.caller_account_id == output.caller_account_id,
        output@.instruction_data == output.instruction_data@,
        output@.validity_window == output.validity_window,
        output@.state_diffs.len() == output.state_diffs@.len(),
        output@.chained_calls.len() == output.chained_calls@.len(),
        0 <= i < output.state_diffs@.len() ==> output@.state_diffs[i] == output.state_diffs@[i]@,
        0 <= i < output.chained_calls@.len() ==> output@.chained_calls[i]
            == output.chained_calls@[i]@,
{
}

/// A diff that leaves a state alone starts from that state, moves no balance and keeps each byte.
pub proof fn law_unchanged_diffs_change_nothing(pre: InputModel, balance: u128)
    ensures
        ShardStateDiffModel::unchanged(pre).pre == pre,
        ShardStateDiffModel::unchanged(pre).post_data == pre.data,
        moved_balance(balance, ShardStateDiffModel::unchanged(pre).balance_diff) == Some(balance),
{
}

/// Adding an amount makes a balance larger by all of it, and taking it away makes it smaller by
/// all of it, wherever the result is a balance, and only there.
pub proof fn law_balances_move_by_the_whole_amount(balance: u128, amount: u128)
    ensures
        balance + amount <= u128::MAX <==> moved_balance(balance, BalanceDiff::Add(amount)) is Some,
        moved_balance(balance, BalanceDiff::Add(amount)) matches Some(now) ==> now - balance
            == amount,
        amount <= balance <==> moved_balance(balance, BalanceDiff::Sub(amount)) is Some,
        moved_balance(balance, BalanceDiff::Sub(amount)) matches Some(now) ==> balance - now
            == amount,
{
}

/// What one call adds another takes away again.
pub proof fn law_moves_undo_each_other(balance: u128, amount: u128, there: u128, back: u128)
    requires
        call_ensures(BalanceDiff::apply, (BalanceDiff::Add(amount), balance), Some(there)),
        call_ensures(BalanceDiff::apply, (BalanceDiff::Sub(amount), there), Some(back)),
    ensures
        there == balance + amount,
        back == balance,
{
}

/// By how much diffs move the balance of an account in all.
pub open spec fn net_move(diffs: Seq<ShardStateDiffModel>, id: AccountId) -> int
    decreases diffs.len(),
{
    if diffs.len() == 0 {
        0
    } else {
        net_move(diffs.drop_last(), id) + if diffs.last().pre.account_id == id {
            match diffs.last().balance_diff {
                BalanceDiff::Add(amount) => amount as int,
                BalanceDiff::Sub(amount) => -(amount as int),
            }
        } else {
            0
        }
    }
}

/// Each diff changes the balance of the account that it names by the amount that it says and the
/// shard that it names to the bytes that it says, keeps the rest of that account and every other,
/// and applies exactly where the new balance is one.
pub proof fn law_a_diff_changes_what_it_names(
    world: Map<AccountId, AccountModel>,
    diff: ShardStateDiffModel,
    other: AccountId,
)
    ensures
        ({
            let id = diff.pre.account_id;
            let target = match diff.balance_diff {
                BalanceDiff::Add(amount) => balance_in(world, id) + amount,
                BalanceDiff::Sub(amount) => balance_in(world, id) - amount,
            };
            &&& diff_applied(world, diff) is Some <==> 0 <= target <= u128::MAX
            &&& diff_applied(world, diff) matches Some(after) ==> {
                &&& balance_in(after, id) == target
                &&& account_in(after, id).nonce == account_in(world, id).nonce
                &&& other != id ==> account_in(after, other) == account_in(world, other)
                &&& diff.pre.namespace is Some ==> shard_in(
                    after,
                    Position { account_id: id, namespace: diff.pre.namespace },
                ) == diff.post_data
                &&& diff.pre.namespace != Some(other) ==> shard_in(
                    after,
                    Position { account_id: id, namespace: Some(other) },
                ) == shard_in(world, Position { account_id: id, namespace: Some(other) })
            }
        }),
{
}

/// Diffs in a row move the balance of each account by what they say in all, and touch neither its
/// nonce nor, where they do not name it, anything else of it.
pub proof fn law_diffs_move_balances_by_what_they_say(
    world: Map<AccountId, AccountModel>,
    diffs: Seq<ShardStateDiffModel>,
    id: AccountId,
)
    ensures
        diffs_applied(world, diffs) matches Some(after) ==> {
            &&& balance_in(after, id) == balance_in(world, id) + net_move(diffs, id)
            &&& account_in(after, id).nonce == account_in(world, id).nonce
            &&& (forall|i: int|
                0 <= i < diffs.len() ==> (#[trigger] diffs[i]).pre.account_id != id)
                ==> account_in(after, id) == account_in(world, id)
        },
    decreases diffs.len(),
{
    if diffs.len() > 0 {
        let rest = diffs.drop_last();
        law_diffs_move_balances_by_what_they_say(world, rest, id);
        if diffs_applied(world, rest) is Some {
            law_a_diff_changes_what_it_names(diffs_applied(world, rest)->0, diffs.last(), id);
        }
        if forall|i: int| 0 <= i < diffs.len() ==> (#[trigger] diffs[i]).pre.account_id != id {
            assert forall|i: int| 0 <= i < rest.len() implies (#[trigger] rest[i]).pre.account_id
                != id by {
                assert(rest[i] == diffs[i]);
            }
            assert(diffs[diffs.len() - 1].pre.account_id != id);
        }
    }
}

/// Diffs in a row apply exactly where no account is overdrawn or overfilled on the way.
pub proof fn law_diffs_apply_where_balances_fit(
    world: Map<AccountId, AccountModel>,
    diffs: Seq<ShardStateDiffModel>,
)
    ensures
        diffs_applied(world, diffs) is Some <==> forall|n: int|
            0 <= n < diffs.len() ==> {
                let id = (#[trigger] diffs[n]).pre.account_id;
                0 <= balance_in(world, id) + net_move(diffs.take(n + 1), id) <= u128::MAX
            },
    decreases diffs.len(),
{
    if diffs.len() > 0 {
        let rest = diffs.drop_last();
        let last = diffs.last();
        let id = last.pre.account_id;
        law_diffs_apply_where_balances_fit(world, rest);
        law_diffs_move_balances_by_what_they_say(world, rest, id);
        assert(diffs.take(diffs.len() as int) =~= diffs);
        assert forall|n: int| 0 <= n < rest.len() implies rest.take(n + 1) == diffs.take(n + 1)
            && rest[n] == #[trigger] diffs[n] by {
            assert(rest.take(n + 1) =~= diffs.take(n + 1));
        }
        if diffs_applied(world, rest) is Some {
            law_a_diff_changes_what_it_names(diffs_applied(world, rest)->0, last, id);
            assert forall|n: int| 0 <= n < rest.len() implies ({
                let id = (#[trigger] diffs[n]).pre.account_id;
                0 <= balance_in(world, id) + net_move(diffs.take(n + 1), id) <= u128::MAX
            }) by {
                assert(rest[n] == diffs[n]);
            }
            assert(diffs[diffs.len() - 1] == last);
            if diffs_applied(world, diffs) is Some {
                assert forall|n: int| 0 <= n < diffs.len() implies ({
                    let id = (#[trigger] diffs[n]).pre.account_id;
                    0 <= balance_in(world, id) + net_move(diffs.take(n + 1), id) <= u128::MAX
                }) by {
                    if n < rest.len() {
                        assert(rest[n] == diffs[n]);
                    }
                }
            }
        } else {
            let n = choose|n: int|
                0 <= n < rest.len() && !({
                    let id = (#[trigger] rest[n]).pre.account_id;
                    0 <= balance_in(world, id) + net_move(rest.take(n + 1), id) <= u128::MAX
                });
            assert(diffs[n] == rest[n]);
            assert(rest.take(n + 1) == diffs.take(n + 1));
        }
    }
}

/// A transfer neither makes nor loses anything: what one account gives the other gets, all of it,
/// and every other account keeps what it has.
pub proof fn law_transfers_keep_the_sum(
    world: Map<AccountId, AccountModel>,
    from: ShardStateDiffModel,
    to: ShardStateDiffModel,
    amount: u128,
    after: Map<AccountId, AccountModel>,
    other: AccountId,
)
    requires
        from.balance_diff == BalanceDiff::Sub(amount),
        to.balance_diff == BalanceDiff::Add(amount),
        from.pre.account_id != to.pre.account_id,
        diffs_applied(world, seq![from, to]) == Some(after),
    ensures
        balance_in(after, from.pre.account_id) + balance_in(after, to.pre.account_id) == balance_in(
            world,
            from.pre.account_id,
        ) + balance_in(world, to.pre.account_id),
        balance_in(world, from.pre.account_id) - balance_in(after, from.pre.account_id) == amount,
        balance_in(after, to.pre.account_id) - balance_in(world, to.pre.account_id) == amount,
        other != from.pre.account_id && other != to.pre.account_id ==> account_in(after, other)
            == account_in(world, other),
{
    let both = seq![from, to];
    assert(both.drop_last() =~= seq![from]);
    assert(both.drop_last().drop_last() =~= Seq::empty());
    reveal_with_fuel(diffs_applied, 3);
    let between = diff_applied(world, from)->0;
    law_a_diff_changes_what_it_names(world, from, to.pre.account_id);
    law_a_diff_changes_what_it_names(world, from, other);
    law_a_diff_changes_what_it_names(between, to, from.pre.account_id);
    law_a_diff_changes_what_it_names(between, to, other);
}

/// A time is admitted from the start of a window on and before its end, where it has them.
pub proof fn law_windows_run_from_start_to_end(window: ValidityWindow, time: u64)
    ensures
        window.admits(time) <==> {
            &&& window.from is None || window.from->0 <= time
            &&& window.to is None || time < window.to->0
        },
        window.admits_nothing() <==> window.to is Some && (window.to->0 == 0 || (window.from is Some
            && window.to->0 <= window.from->0)),
        ValidityWindow::always().admits(time),
        ValidityWindow::always().from is None,
        ValidityWindow::always().to is None,
{
    let start: u64 = if window.from is Some {
        window.from->0
    } else {
        0
    };
    if !(window.to is Some && window.to->0 <= start) {
        assert(window.admits(start));
    }
}

/// The meeting of two windows starts where the later starts and ends where the earlier ends.
pub proof fn law_windows_meet_at_their_inner_bounds(a: ValidityWindow, b: ValidityWindow)
    ensures
        a.meet(b).from is None <==> a.from is None && b.from is None,
        a.meet(b).to is None <==> a.to is None && b.to is None,
        a.meet(b).from is Some ==> a.meet(b).from == a.from || a.meet(b).from == b.from,
        a.meet(b).to is Some ==> a.meet(b).to == a.to || a.meet(b).to == b.to,
        a.from is Some ==> a.meet(b).from->0 >= a.from->0,
        b.from is Some ==> a.meet(b).from->0 >= b.from->0,
        a.to is Some ==> a.meet(b).to->0 <= a.to->0,
        b.to is Some ==> a.meet(b).to->0 <= b.to->0,
{
}

} // verus!
