//! What a traversal starts from, hands to programs, takes in and publishes, in the plainest terms.
use crate::account::{account_in, balance_in, shard_in, AccountModel};
use crate::account_laws::law_writes_change_one_shard;
use crate::error::{CircuitRejection, LeeError};
use crate::laws::{lemma_cover_all, lemma_first_unsettled, lemma_last_write, lemma_unreported};
use crate::model::{
    cover_all, opened, reported, started, DueModel, Event, JournalModel, ProvingInputModel,
    TraversalModel,
};
use crate::position::{AccountId, Position};
use crate::program::ProgramOutputModel;
use crate::program_laws::{
    law_diffs_apply_where_balances_fit, law_diffs_move_balances_by_what_they_say,
    law_windows_run_from_start_to_end, net_move,
};
use crate::traversal::{Due, Journal, PrivateNote, ProvingInput, PublicAction, RunCall};
use crate::witness::{
    law_grants_are_what_witnesses_name, private_grants, NullifierModel,
    PrivateAccountKind, WitnessKind, WitnessModel,
};
use crate::witness_laws::law_programs_derive_what_witnesses_name;
use vstd::prelude::*;

verus! {

/// A request counts with each of its fields, and with every witness in order.
pub proof fn law_requests_count_whole(input: ProvingInput, i: int)
    ensures
        input@.positions == input.positions@,
        input@.signers == input.signers@,
        input@.public_accounts == input.public_accounts@,
        input@.instruction_data == input.instruction_data@,
        input@.private_witnesses.len() == input.private_witnesses@.len(),
        0 <= i < input.private_witnesses@.len() ==> input@.private_witnesses[i]
            == input.private_witnesses@[i]@,
{
}

/// A run counts with each of its fields, and with every state in order; what is due counts as
/// what it is.
pub proof fn law_due_work_counts_whole(run: RunCall, due: Due, i: int)
    ensures
        run@.program == run.program,
        run@.caller == run.caller,
        run@.instruction_data == run.instruction_data@,
        run@.pre_states.len() == run.pre_states@.len(),
        0 <= i < run.pre_states@.len() ==> run@.pre_states[i] == run.pre_states@[i]@,
        due is Failed <==> due@ is Failed,
        due is Finished <==> due@ is Finished,
        due is Resolve <==> due@ is Resolve,
        due is Run <==> due@ is Run,
        due matches Due::Resolve(position) ==> due@ == DueModel::Resolve(position),
        due matches Due::Run(call) ==> due@ == DueModel::Run(call@),
{
}

/// What is published counts with each of its fields, and with every action and note in order.
pub proof fn law_journals_count_whole(
    journal: Journal,
    action: PublicAction,
    note: PrivateNote,
    i: int,
)
    ensures
        action@.account_id == action.account_id,
        action@.is_authorized == action.is_authorized,
        action@.pre == action.pre@,
        action@.post == action.post@,
        note@.kind == note.kind,
        note@.view_tag == note.view_tag,
        note@.account == note.account@,
        journal@.window == journal.validity_window,
        journal@.public_actions.len() == journal.public_actions@.len(),
        journal@.private_notes.len() == journal.private_notes@.len(),
        0 <= i < journal.public_actions@.len() ==> journal@.public_actions[i]
            == journal.public_actions@[i]@,
        0 <= i < journal.private_notes@.len() ==> journal@.private_notes[i]
            == journal.private_notes@[i]@,
{
}

/// The account at a witness's address, the last witness for it counting, is the witness's account
/// whole: balance, nonce and every shard. Every other account is the public one.
pub proof fn law_witnesses_open_their_accounts_whole(
    world: Map<AccountId, AccountModel>,
    witnesses: Seq<WitnessModel>,
    id: AccountId,
)
    ensures
        forall|i: int|
            #![trigger witnesses[i]]
            0 <= i < witnesses.len() && witnesses[i].derived.address == id && (forall|j: int|
                i < j < witnesses.len() ==> (#[trigger] witnesses[j]).derived.address != id) ==> {
                let account = witnesses[i].account;
                let there = opened(world, witnesses);
                &&& there.contains_key(id)
                &&& there[id].balance == account.balance
                &&& there[id].nonce == account.nonce
                &&& there[id].shards == account.shards
            },
        (forall|i: int| 0 <= i < witnesses.len() ==> (#[trigger] witnesses[i]).derived.address != id)
            ==> {
            let there = opened(world, witnesses);
            &&& there.contains_key(id) <==> world.contains_key(id)
            &&& world.contains_key(id) ==> there[id] == world[id]
        },
    decreases witnesses.len(),
{
    if witnesses.len() > 0 {
        let rest = witnesses.drop_last();
        let last = witnesses.last();
        law_witnesses_open_their_accounts_whole(world, rest, id);
        assert(witnesses[witnesses.len() - 1] == last);
        assert forall|i: int|
            #![trigger witnesses[i]]
            0 <= i < witnesses.len() && witnesses[i].derived.address == id && (forall|j: int|
                i < j < witnesses.len() ==> (#[trigger] witnesses[j]).derived.address
                    != id) implies ({
            let account = witnesses[i].account;
            let there = opened(world, witnesses);
            &&& there.contains_key(id)
            &&& there[id].balance == account.balance
            &&& there[id].nonce == account.nonce
            &&& there[id].shards == account.shards
        }) by {
            if i < rest.len() {
                assert(rest[i] == witnesses[i]);
                assert(witnesses[witnesses.len() - 1].derived.address != id);
                assert forall|j: int| i < j < rest.len() implies (
                #[trigger] rest[j]).derived.address != id by {
                    assert(rest[j] == witnesses[j]);
                }
            }
        }
        if forall|i: int|
            0 <= i < witnesses.len() ==> (#[trigger] witnesses[i]).derived.address != id {
            assert forall|i: int| 0 <= i < rest.len() implies (#[trigger] rest[i]).derived.address
                != id by {
                assert(rest[i] == witnesses[i]);
            }
        }
    }
}

/// A traversal starts from the request as it stands: one call waits, that of the root on the
/// positions of the request with its instruction; the positions are settled, each once; nothing
/// was asked for, nothing failed, and every time is admitted. The accounts are the public ones
/// and those that the witnesses open, before and now.
pub proof fn law_traversals_start_from_the_request(
    input: ProvingInputModel,
    root: AccountId,
    programs: Set<AccountId>,
    p: Position,
)
    ensures
        ({
            let start = started(input, root, programs);
            &&& start.signers == input.signers
            &&& start.witnesses == input.private_witnesses
            &&& start.programs == programs
            &&& start.asked.len() == 0
            &&& start.failed is None
            &&& start.window.from is None && start.window.to is None
            &&& start.base == opened(input.public_accounts, input.private_witnesses)
            &&& start.current == start.base
            &&& start.covered.contains(p) <==> input.positions.contains(p)
            &&& start.covered.no_duplicates()
            &&& start.pending.len() == 1
            &&& start.pending[0].program == root
            &&& start.pending[0].caller is None
            &&& start.pending[0].positions == input.positions
            &&& start.pending[0].instruction_data == input.instruction_data
            &&& start.pending[0].granted.len() == 0
        }),
{
    lemma_cover_all(Seq::empty(), input.positions);
}

/// Positions are settled in the order in which they come, each the first time it comes.
pub proof fn law_positions_are_settled_in_order(
    covered: Seq<Position>,
    positions: Seq<Position>,
    next: Position,
)
    ensures
        cover_all(covered, Seq::empty()) == covered,
        cover_all(covered, positions.push(next)) == if covered.contains(next)
            || positions.contains(next) {
            cover_all(covered, positions)
        } else {
            cover_all(covered, positions).push(next)
        },
{
    assert(positions.push(next).drop_last() =~= positions);
    lemma_cover_all(covered, positions);
}

/// The accounts that a witness opens are private, and no other.
pub proof fn law_private_accounts_are_those_opened(m: TraversalModel, id: AccountId)
    ensures
        m.is_private(id) <==> exists|i: int|
            0 <= i < m.witnesses.len() && (#[trigger] m.witnesses[i]).derived.address == id,
{
}

/// The root declares an account authorized exactly where it signed or where a witness of it shows
/// a credential.
pub proof fn law_roots_declare_signers_and_credentials(m: TraversalModel, id: AccountId)
    ensures
        m.declares(id) <==> {
            ||| exists|i: int| 0 <= i < m.signers.len() && #[trigger] m.signers[i] == id
            ||| exists|i: int|
                0 <= i < m.witnesses.len() && (#[trigger] m.witnesses[i]).derived.address == id
                    && m.witnesses[i].kind is Regular && m.witnesses[i].kind->ask is Some
        },
{
    if m.signers.contains(id) {
        assert(m.signers[m.signers.index_of(id)] == id);
    }
}

/// A shard is waited for where a namespace is named, nothing has settled the position, and the
/// account is not private.
pub proof fn law_unsettled_shards_are_public_and_new(m: TraversalModel, p: Position)
    ensures
        m.unsettled(p) <==> p.namespace is Some && (forall|i: int|
            0 <= i < m.covered.len() ==> #[trigger] m.covered[i] != p) && (forall|i: int|
            0 <= i < m.witnesses.len() ==> (#[trigger] m.witnesses[i]).derived.address
                != p.account_id),
{
}

/// Which of several positions is the first that is waited for.
proof fn lemma_first_of(m: TraversalModel, positions: Seq<Position>)
    ensures
        m.first_unsettled(positions) matches Some(p) ==> exists|k: int|
            #![trigger positions[k]]
            0 <= k < positions.len() && positions[k] == p && m.unsettled(p) && forall|j: int|
                0 <= j < k ==> !m.unsettled(#[trigger] positions[j]),
        m.first_unsettled(positions) is None <==> forall|j: int|
            0 <= j < positions.len() ==> !m.unsettled(#[trigger] positions[j]),
    decreases positions.len(),
{
    if positions.len() > 0 {
        let rest = positions.drop_first();
        lemma_first_of(m, rest);
        assert(positions[0] == positions.first());
        assert forall|j: int| 0 <= j < rest.len() implies rest[j] == #[trigger] positions[j + 1] by {}
        if m.unsettled(positions.first()) {
            assert(m.first_unsettled(positions) == Some(positions[0]));
        } else {
            if m.first_unsettled(rest) is Some {
                let p = m.first_unsettled(rest)->0;
                let k = choose|k: int|
                    #![trigger rest[k]]
                    0 <= k < rest.len() && rest[k] == p && m.unsettled(p) && forall|j: int|
                        0 <= j < k ==> !m.unsettled(#[trigger] rest[j]);
                assert(positions[k + 1] == p);
                assert forall|j: int| 0 <= j < k + 1 implies !m.unsettled(
                    #[trigger] positions[j],
                ) by {
                    if j > 0 {
                        assert(rest[j - 1] == positions[j]);
                    }
                }
            } else {
                assert forall|j: int| 0 <= j < positions.len() implies !m.unsettled(
                    #[trigger] positions[j],
                ) by {
                    if j > 0 {
                        assert(rest[j - 1] == positions[j]);
                    }
                }
            }
        }
    }
}

/// What is due: nothing where the traversal failed or no call waits; else the first shard of the
/// last call that is waited for, or, where there is none, that call.
pub proof fn law_what_is_due_is_the_last_call(m: TraversalModel)
    ensures
        m.due() is Failed <==> m.failed is Some,
        m.due() is Finished <==> m.failed is None && m.pending.len() == 0,
        m.due() is Run <==> m.failed is None && m.pending.len() > 0 && forall|j: int|
            0 <= j < m.pending.last().positions.len() ==> !m.unsettled(
                #[trigger] m.pending.last().positions[j],
            ),
        m.due() matches DueModel::Resolve(p) ==> exists|k: int|
            #![trigger m.pending.last().positions[k]]
            0 <= k < m.pending.last().positions.len() && m.pending.last().positions[k] == p
                && m.unsettled(p) && forall|j: int|
                0 <= j < k ==> !m.unsettled(#[trigger] m.pending.last().positions[j]),
{
    if m.failed is None && m.pending.len() > 0 {
        lemma_first_of(m, m.pending.last().positions);
    }
}

/// A program is run as the call says, and handed for each position what the account holds now:
/// its balance, its bytes under the namespace that is named, and whether it is authorized.
pub proof fn law_runs_are_handed_what_accounts_hold(m: TraversalModel, i: int)
    requires
        m.due() is Run,
    ensures
        ({
            let run = m.due()->Run_0;
            let call = m.pending[m.pending.len() - 1];
            &&& run.program == call.program
            &&& run.caller == call.caller
            &&& run.instruction_data == call.instruction_data
            &&& run.pre_states.len() == call.positions.len()
            &&& 0 <= i < call.positions.len() ==> {
                let p = call.positions[i];
                let state = run.pre_states[i];
                &&& state.account_id == p.account_id
                &&& state.namespace == p.namespace
                &&& state.balance == account_in(m.current, p.account_id).balance
                &&& state.data == shard_in(m.current, p)
                &&& state.is_authorized <==> m.declares(p.account_id) || call.granted.contains(
                    p.account_id,
                )
            }
        }),
{
}

/// A program at the root is handed a private account as its witness opens it.
pub proof fn law_roots_are_handed_opened_accounts(
    input: ProvingInputModel,
    root: AccountId,
    programs: Set<AccountId>,
    w: int,
    i: int,
    namespace: AccountId,
)
    requires
        started(input, root, programs).due() is Run,
        0 <= w < input.private_witnesses.len(),
        forall|j: int|
            w < j < input.private_witnesses.len() ==> (
            #[trigger] input.private_witnesses[j]).derived.address
                != input.private_witnesses[w].derived.address,
        0 <= i < input.positions.len(),
        input.positions[i].account_id == input.private_witnesses[w].derived.address,
    ensures
        ({
            let state = started(input, root, programs).due()->Run_0.pre_states[i];
            let account = input.private_witnesses[w].account;
            &&& state.balance == account.balance
            &&& input.positions[i].namespace == Some(namespace) && account.shards.contains_key(
                namespace,
            ) ==> state.data == account.shards[namespace]
            &&& input.positions[i].namespace == Some(namespace) && !account.shards.contains_key(
                namespace,
            ) ==> state.data.len() == 0
        }),
{
    let start = started(input, root, programs);
    law_runs_are_handed_what_accounts_hold(start, i);
    law_witnesses_open_their_accounts_whole(
        input.public_accounts,
        input.private_witnesses,
        input.private_witnesses[w].derived.address,
    );
}

/// An answer of the resolver settles the position, which then counts as asked for; what was fetched
/// stands there, before and now, to the byte, and everything else stays. Without an answer no
/// account changes.
pub proof fn law_resolutions_change_nothing_else(
    m: TraversalModel,
    id: AccountId,
    namespace: AccountId,
    answer: Option<Seq<u8>>,
    q: Position,
    other: AccountId,
)
    ensures
        ({
            let p = Position { account_id: id, namespace: Some(namespace) };
            let after = m.resolved(p, answer);
            &&& after.covered.len() == m.covered.len() + 1
            &&& after.covered.last() == p
            &&& after.covered.drop_last() == m.covered
            &&& after.asked.len() == m.asked.len() + 1
            &&& after.asked.last() == p
            &&& after.asked.drop_last() == m.asked
            &&& after.signers == m.signers
            &&& after.witnesses == m.witnesses
            &&& after.programs == m.programs
            &&& after.pending == m.pending
            &&& after.window == m.window
            &&& after.failed == m.failed
            &&& answer is None ==> after.base == m.base && after.current == m.current
            &&& answer matches Some(bytes) ==> {
                &&& shard_in(after.base, p) == bytes
                &&& shard_in(after.current, p) == bytes
                &&& q != p ==> shard_in(after.base, q) == shard_in(m.base, q)
                &&& q != p ==> shard_in(after.current, q) == shard_in(m.current, q)
                &&& balance_in(after.base, other) == balance_in(m.base, other)
                &&& balance_in(after.current, other) == balance_in(m.current, other)
                &&& other != id ==> account_in(after.base, other) == account_in(m.base, other)
                &&& other != id ==> account_in(after.current, other) == account_in(
                    m.current,
                    other,
                )
            }
        }),
{
    let p = Position { account_id: id, namespace: Some(namespace) };
    assert(m.covered.push(p).drop_last() =~= m.covered);
    assert(m.asked.push(p).drop_last() =~= m.asked);
    if answer is Some {
        law_writes_change_one_shard(m.base, id, namespace, answer->0, q, other);
        law_writes_change_one_shard(m.current, id, namespace, answer->0, q, other);
    }
}

/// An error stands as the reason of the failure, and nothing else changes.
pub proof fn law_failures_keep_the_error(m: TraversalModel, error: LeeError)
    ensures
        m.aborted(error).failed == Some(error),
        m.aborted(error) == (TraversalModel { failed: Some(error), ..m }),
        m.aborted(error).due() is Failed,
        m.aborted(error).outcome() == Err::<JournalModel, LeeError>(error),
{
}

/// An answer is accepted exactly where each diff starts from what its account holds and changes no
/// bytes but under the program's own namespace, no balance is overdrawn or overfilled on the way,
/// and every callee is within reach.
pub proof fn law_answers_are_accepted_where_they_fit(
    m: TraversalModel,
    program: AccountId,
    output: ProgramOutputModel,
)
    ensures
        m.accepts(program, output) <==> {
            &&& forall|i: int|
                0 <= i < output.state_diffs.len() ==> {
                    let diff = #[trigger] output.state_diffs[i];
                    let p = Position {
                        account_id: diff.pre.account_id,
                        namespace: diff.pre.namespace,
                    };
                    &&& diff.pre.balance == balance_in(m.current, diff.pre.account_id)
                    &&& diff.pre.data == shard_in(m.current, p)
                    &&& diff.pre.namespace == Some(program) || diff.post_data == shard_in(
                        m.current,
                        p,
                    )
                }
            &&& forall|n: int|
                0 <= n < output.state_diffs.len() ==> {
                    let id = (#[trigger] output.state_diffs[n]).pre.account_id;
                    0 <= balance_in(m.current, id) + net_move(output.state_diffs.take(n + 1), id)
                        <= u128::MAX
                }
            &&& forall|i: int|
                0 <= i < output.chained_calls.len() ==> m.programs.contains(
                    (#[trigger] output.chained_calls[i]).program_account_id,
                )
        },
{
    law_diffs_apply_where_balances_fit(m.current, output.state_diffs);
}

/// An answer that is not accepted fails the traversal as a program's misbehaviour.
pub proof fn law_answers_that_do_not_fit_fail(
    m: TraversalModel,
    output: ProgramOutputModel,
    granted: Seq<Seq<AccountId>>,
)
    requires
        m.pending.len() > 0,
        !m.accepts(m.pending.last().program, output),
    ensures
        m.ran(output, granted).failed == Some(LeeError::InvalidProgramBehavior),
        m.ran(output, granted) == m.aborted(LeeError::InvalidProgramBehavior),
{
}

/// An answer that is accepted moves each balance by what its diffs say in all, and no nonce; it
/// leaves each position that it does not report as it is, and the state before the transaction
/// and what was asked for, signed and opened as they are.
pub proof fn law_answers_take_effect_as_they_say(
    m: TraversalModel,
    output: ProgramOutputModel,
    granted: Seq<Seq<AccountId>>,
    id: AccountId,
    p: Position,
)
    requires
        m.pending.len() > 0,
        m.accepts(m.pending.last().program, output),
    ensures
        ({
            let after = m.ran(output, granted);
            let call = m.pending[m.pending.len() - 1];
            &&& balance_in(after.current, id) == balance_in(m.current, id) + net_move(
                output.state_diffs,
                id,
            )
            &&& account_in(after.current, id).nonce == account_in(m.current, id).nonce
            &&& (forall|k: int|
                0 <= k < output.state_diffs.len() ==> (
                #[trigger] output.state_diffs[k]).pre.account_id != id) ==> account_in(
                after.current,
                id,
            ) == account_in(m.current, id)
            &&& (forall|k: int|
                0 <= k < output.state_diffs.len() ==> (
                #[trigger] output.state_diffs[k]).pre.account_id != p.account_id
                    || output.state_diffs[k].pre.namespace != p.namespace) ==> shard_in(
                after.current,
                p,
            ) == shard_in(m.current, p)
            &&& after.covered.contains(p) <==> {
                ||| m.covered.contains(p)
                ||| call.positions.contains(p)
                ||| exists|k: int|
                    0 <= k < output.state_diffs.len() && (
                    #[trigger] output.state_diffs[k]).pre.account_id == p.account_id
                        && output.state_diffs[k].pre.namespace == p.namespace
            }
            &&& m.covered.no_duplicates() ==> after.covered.no_duplicates()
            &&& after.covered == cover_all(
                cover_all(m.covered, call.positions),
                Seq::new(
                    output.state_diffs.len(),
                    |k: int|
                        Position {
                            account_id: output.state_diffs[k].pre.account_id,
                            namespace: output.state_diffs[k].pre.namespace,
                        },
                ),
            )
            &&& after.base == m.base
            &&& after.asked == m.asked
            &&& after.signers == m.signers
            &&& after.witnesses == m.witnesses
            &&& after.programs == m.programs
            &&& after.failed == m.failed
        }),
{
    let diffs = output.state_diffs;
    let call = m.pending.last();
    law_diffs_move_balances_by_what_they_say(m.current, diffs, id);
    lemma_cover_all(m.covered, call.positions);
    lemma_cover_all(cover_all(m.covered, call.positions), reported(diffs));
    assert(reported(diffs) =~= Seq::new(
        diffs.len(),
        |k: int|
            Position {
                account_id: diffs[k].pre.account_id,
                namespace: diffs[k].pre.namespace,
            },
    ));
    assert(reported(diffs).contains(p) <==> exists|k: int|
        0 <= k < diffs.len() && (#[trigger] diffs[k]).pre.account_id == p.account_id
            && diffs[k].pre.namespace == p.namespace) by {
        if reported(diffs).contains(p) {
            let k = reported(diffs).index_of(p);
            assert(diffs[k].pre.position() == p);
        }
        if exists|k: int|
            0 <= k < diffs.len() && (#[trigger] diffs[k]).pre.account_id == p.account_id
                && diffs[k].pre.namespace == p.namespace {
            let k = choose|k: int|
                0 <= k < diffs.len() && (#[trigger] diffs[k]).pre.account_id == p.account_id
                    && diffs[k].pre.namespace == p.namespace;
            assert(reported(diffs)[k] == p);
        }
    }
    if !reported(diffs).contains(p) {
        lemma_unreported(m.current, diffs, p);
    }
}

/// Each position reads, after an answer, exactly the bytes that the last diff for it says.
pub proof fn law_answers_write_what_they_say(
    m: TraversalModel,
    output: ProgramOutputModel,
    granted: Seq<Seq<AccountId>>,
    k: int,
)
    requires
        m.pending.len() > 0,
        m.accepts(m.pending.last().program, output),
        0 <= k < output.state_diffs.len(),
        output.state_diffs[k].pre.namespace is Some,
        forall|j: int|
            k < j < output.state_diffs.len() ==> (
            #[trigger] output.state_diffs[j]).pre.account_id
                != output.state_diffs[k].pre.account_id || output.state_diffs[j].pre.namespace
                != output.state_diffs[k].pre.namespace,
    ensures
        shard_in(
            m.ran(output, granted).current,
            Position {
                account_id: output.state_diffs[k].pre.account_id,
                namespace: output.state_diffs[k].pre.namespace,
            },
        ) == output.state_diffs[k].post_data,
{
    let diffs = output.state_diffs;
    assert forall|j: int| k < j < diffs.len() implies (#[trigger] diffs[j]).pre.position()
        != diffs[k].pre.position() by {}
    lemma_last_write(m.current, diffs, k);
}

/// The calls that an answer chains wait on top of those that wait already, the first of them next;
/// each is made by the program that answered, of the program, at the positions and with the
/// instruction that the answer says. It may act for what its seeds derive.
pub proof fn law_answers_chain_the_calls_they_say(
    m: TraversalModel,
    output: ProgramOutputModel,
    granted: Seq<Seq<AccountId>>,
    i: int,
    id: AccountId,
)
    requires
        m.pending.len() > 0,
        m.accepts(m.pending.last().program, output),
        granted.len() == output.chained_calls.len(),
    ensures
        ({
            let after = m.ran(output, granted).pending;
            let program = m.pending[m.pending.len() - 1].program;
            &&& after.len() == m.pending.len() - 1 + output.chained_calls.len()
            &&& forall|j: int|
                0 <= j < m.pending.len() - 1 ==> #[trigger] after[j] == m.pending[j]
            &&& 0 <= i < output.chained_calls.len() ==> {
                let call = after[after.len() - 1 - i];
                let said = output.chained_calls[i];
                &&& call.program == said.program_account_id
                &&& call.caller == Some(program)
                &&& call.positions == said.positions
                &&& call.instruction_data == said.instruction_data
                &&& call.granted.contains(id) <==> {
                    ||| granted[i].contains(id)
                    ||| exists|k: int, s: int|
                        #![trigger m.witnesses[k], said.pda_seeds[s]]
                        0 <= k < m.witnesses.len() && 0 <= s < said.pda_seeds.len()
                            && m.witnesses[k].derived.address == id && m.witnesses[k].kind == (
                        WitnessKind::Pda { program, seed: said.pda_seeds[s] })
                }
            }
        }),
{
    let after = m.ran(output, granted).pending;
    let program = m.pending[m.pending.len() - 1].program;
    if 0 <= i < output.chained_calls.len() {
        let call = after[after.len() - 1 - i];
        let said = output.chained_calls[i];
        let own = private_grants(m.witnesses, program, said.pda_seeds);
        assert(call.granted == granted[i] + own);
        law_grants_are_what_witnesses_name(m.witnesses, program, said.pda_seeds, id);
        if own.contains(id) {
            let k = choose|k: int|
                0 <= k < m.witnesses.len() && (#[trigger] m.witnesses[k]).derived_by(
                    program,
                    said.pda_seeds,
                ) && m.witnesses[k].derived.address == id;
            law_programs_derive_what_witnesses_name(m.witnesses[k], program, said.pda_seeds);
            let s = choose|s: int|
                0 <= s < said.pda_seeds.len() && m.witnesses[k].kind == (WitnessKind::Pda {
                    program,
                    seed: #[trigger] said.pda_seeds[s],
                });
            assert(m.witnesses[k].kind == (WitnessKind::Pda { program, seed: said.pda_seeds[s] }));
            assert(call.granted[granted[i].len() + own.index_of(id)] == id);
        }
        if exists|k: int, s: int|
            #![trigger m.witnesses[k], said.pda_seeds[s]]
            0 <= k < m.witnesses.len() && 0 <= s < said.pda_seeds.len()
                && m.witnesses[k].derived.address == id && m.witnesses[k].kind == (
            WitnessKind::Pda { program, seed: said.pda_seeds[s] }) {
            let (k, s) = choose|k: int, s: int|
                #![trigger m.witnesses[k], said.pda_seeds[s]]
                0 <= k < m.witnesses.len() && 0 <= s < said.pda_seeds.len()
                    && m.witnesses[k].derived.address == id && m.witnesses[k].kind == (
                WitnessKind::Pda { program, seed: said.pda_seeds[s] });
            assert(said.pda_seeds.contains(said.pda_seeds[s]));
            assert(m.witnesses[k].derived_by(program, said.pda_seeds));
        }
        if granted[i].contains(id) {
            assert(call.granted[granted[i].index_of(id)] == id);
        }
        if call.granted.contains(id) && !granted[i].contains(id) {
            let k = call.granted.index_of(id);
            if k < granted[i].len() {
                assert(granted[i][k] == id);
            } else {
                assert(own[k - granted[i].len()] == id);
            }
        }
    }
}

/// After an answer the times that are admitted are those that were, and that the answer admits.
pub proof fn law_answers_narrow_the_window(
    m: TraversalModel,
    output: ProgramOutputModel,
    granted: Seq<Seq<AccountId>>,
    time: u64,
)
    requires
        m.pending.len() > 0,
        m.accepts(m.pending.last().program, output),
    ensures
        ({
            let window = m.ran(output, granted).window;
            let said = output.validity_window;
            &&& window.admits(time) <==> m.window.admits(time) && said.admits(time)
            &&& window.from is Some ==> window.from == m.window.from || window.from == said.from
            &&& window.to is Some ==> window.to == m.window.to || window.to == said.to
            &&& window.from is None <==> m.window.from is None && said.from is None
            &&& window.to is None <==> m.window.to is None && said.to is None
        }),
{
}

/// An event does what it is for where it answers what is due, and nothing elsewhere.
pub proof fn law_events_answer_what_is_due(
    m: TraversalModel,
    answer: Option<Seq<u8>>,
    output: ProgramOutputModel,
    granted: Seq<Seq<AccountId>>,
    error: LeeError,
)
    ensures
        m.due() matches DueModel::Resolve(p) ==> {
            &&& m.after(Event::Resolved(answer)) == m.resolved(p, answer)
            &&& m.after(Event::Ran(output, granted)) == m
            &&& m.after(Event::Failed(error)) == m.aborted(error)
        },
        m.due() is Run ==> {
            &&& m.after(Event::Resolved(answer)) == m
            &&& m.after(Event::Ran(output, granted)) == m.ran(output, granted)
            &&& m.after(Event::Failed(error)) == m.aborted(error)
        },
        m.due() is Failed || m.due() is Finished ==> {
            &&& m.after(Event::Resolved(answer)) == m
            &&& m.after(Event::Ran(output, granted)) == m
            &&& m.after(Event::Failed(error)) == m
        },
{
}

/// A private account that no diff names is, in the end, the account that its witness opened:
/// balance, nonce and every shard, and its note publishes it so, under its next nonce.
pub proof fn law_private_accounts_are_kept_whole(
    input: ProvingInputModel,
    root: AccountId,
    programs: Set<AccountId>,
    events: Seq<Event>,
    w: int,
)
    requires
        0 <= w < input.private_witnesses.len(),
        forall|j: int|
            w < j < input.private_witnesses.len() ==> (
            #[trigger] input.private_witnesses[j]).derived.address
                != input.private_witnesses[w].derived.address,
        forall|e: int, k: int|
            #![trigger (events[e]->Ran_0).state_diffs[k]]
            0 <= e < events.len() && events[e] is Ran && 0 <= k < (
            events[e]->Ran_0).state_diffs.len() ==> (events[e]->Ran_0).state_diffs[k].pre.account_id
                != input.private_witnesses[w].derived.address,
    ensures
        ({
            let witness = input.private_witnesses[w];
            let end = started(input, root, programs).after_all(events);
            let note = end.journal().private_notes[w];
            &&& end.witnesses == input.private_witnesses
            &&& account_in(end.current, witness.derived.address) == witness.account
            &&& end.journal().private_notes.len() == input.private_witnesses.len()
            &&& note.account.balance == witness.account.balance
            &&& note.account.shards == witness.account.shards
            &&& note.account.nonce == match witness.nullifier {
                NullifierModel::Init { .. } => witness.derived.init_nonce,
                NullifierModel::Update { .. } => witness.derived.advanced_nonce,
            }
        }),
    decreases events.len(),
{
    let witness = input.private_witnesses[w];
    let id = witness.derived.address;
    let start = started(input, root, programs);
    law_witnesses_open_their_accounts_whole(input.public_accounts, input.private_witnesses, id);
    if events.len() > 0 {
        let rest = events.drop_last();
        assert forall|e: int, k: int|
            #![trigger (rest[e]->Ran_0).state_diffs[k]]
            0 <= e < rest.len() && rest[e] is Ran && 0 <= k < (
            rest[e]->Ran_0).state_diffs.len() implies (rest[e]->Ran_0).state_diffs[k].pre.account_id
            != id by {
            assert(rest[e] == events[e]);
            assert((events[e]->Ran_0).state_diffs[k].pre.account_id != id);
        }
        law_private_accounts_are_kept_whole(input, root, programs, rest, w);
        let before = start.after_all(rest);
        let event = events.last();
        assert(events[events.len() - 1] == event);
        assert(before.witnesses[w].derived.address == id);
        match (before.due(), event) {
            (DueModel::Resolve(p), Event::Resolved(answer)) => {
                lemma_first_unsettled(before, before.pending.last().positions);
                assert(before.is_private(id));
                assert(p.account_id != id);
                law_resolutions_change_nothing_else(
                    before,
                    p.account_id,
                    p.namespace->0,
                    answer,
                    p,
                    id,
                );
                assert(p == Position { account_id: p.account_id, namespace: Some(p.namespace->0) });
            },
            (DueModel::Run(_), Event::Ran(output, granted)) => {
                if before.accepts(before.pending.last().program, output) {
                    assert forall|k: int| 0 <= k < output.state_diffs.len() implies (
                    #[trigger] output.state_diffs[k]).pre.account_id != id by {
                        assert((events[events.len() - 1]->Ran_0).state_diffs[k].pre.account_id
                            != id);
                    }
                    law_answers_take_effect_as_they_say(
                        before,
                        output,
                        granted,
                        id,
                        Position { account_id: id, namespace: None },
                    );
                }
            },
            _ => {},
        }
    } else {
        let opened_account = account_in(start.current, id);
        assert(opened_account =~= witness.account);
    }
}

/// The first settled position of the account `ids[i]` is the one at `k`, and it comes before any of
/// the accounts further on in `ids`.
pub open spec fn comes_first(
    covered: Seq<Position>,
    ids: Seq<AccountId>,
    i: int,
    k: int,
) -> bool {
    &&& 0 <= k < covered.len()
    &&& covered[k].account_id == ids[i]
    &&& forall|j: int, e: int|
        #![trigger ids[j], covered[e]]
        i <= j < ids.len() && 0 <= e < k ==> covered[e].account_id != ids[j]
}

/// The account `ids[i]` was settled before those further on in `ids`.
pub open spec fn comes_in_order(covered: Seq<Position>, ids: Seq<AccountId>, i: int) -> bool {
    exists|k: int| #[trigger] comes_first(covered, ids, i, k)
}

/// A position of `id` is among the first `n` of `covered`.
spec fn settled_within(covered: Seq<Position>, n: int, id: AccountId) -> bool {
    exists|k: int| 0 <= k < n && (#[trigger] covered[k]).account_id == id
}

proof fn lemma_public_ids(m: TraversalModel, n: nat)
    requires
        n <= m.covered.len(),
    ensures
        ({
            let ids = m.public_ids(n);
            &&& ids.no_duplicates()
            &&& forall|id: AccountId| #[trigger]
                ids.contains(id) <==> !m.is_private(id) && settled_within(m.covered, n as int, id)
            &&& forall|i: int|
                0 <= i < ids.len() ==> #[trigger] comes_in_order(m.covered.take(n as int), ids, i)
        }),
    decreases n,
{
    if n > 0 {
        let before = m.public_ids((n - 1) as nat);
        let ids = m.public_ids(n);
        let id = m.covered[n - 1].account_id;
        lemma_public_ids(m, (n - 1) as nat);
        let fresh = !m.is_private(id) && !before.contains(id);
        assert forall|other: AccountId| #[trigger] settled_within(m.covered, n as int, other) <==> (
        settled_within(m.covered, n - 1, other) || other == id) by {
            if settled_within(m.covered, n as int, other) {
                let k = choose|k: int|
                    0 <= k < n && (#[trigger] m.covered[k]).account_id == other;
                assert(k < n - 1 || other == id);
            }
            if other == id {
                assert(m.covered[n - 1].account_id == other);
            }
        }
        if fresh {
            assert(ids == before.push(id));
            assert forall|other: AccountId| #[trigger] ids.contains(other) <==> before.contains(
                other,
            ) || other == id by {
                assert(ids[before.len() as int] == id);
                if before.contains(other) {
                    assert(ids[before.index_of(other)] == other);
                }
                if ids.contains(other) && other != id {
                    assert(before[ids.index_of(other)] == other);
                }
            }
            assert forall|i: int, j: int|
                0 <= i < ids.len() && 0 <= j < ids.len() && i != j implies ids[i] != ids[j] by {
                if i < before.len() && j < before.len() {
                    assert(before[i] != before[j]);
                } else if i < before.len() {
                    assert(before.contains(before[i]));
                } else {
                    assert(before.contains(before[j]));
                }
            }
            assert forall|i: int| 0 <= i < ids.len() implies #[trigger] comes_in_order(
                m.covered.take(n as int),
                ids,
                i,
            ) by {
                assert forall|e: int| 0 <= e < n - 1 implies (#[trigger] m.covered[e]).account_id
                    != id by {
                    if m.covered[e].account_id == id {
                        assert(settled_within(m.covered, n - 1, id));
                    }
                }
                if i < before.len() {
                    assert(before[i] == ids[i]);
                    assert(comes_in_order(m.covered.take(n - 1), before, i));
                    let k = choose|k: int| #[trigger]
                        comes_first(m.covered.take(n - 1), before, i, k);
                    assert forall|j: int, e: int|
                        #![trigger ids[j], m.covered.take(n as int)[e]]
                        i <= j < ids.len() && 0 <= e < k implies m.covered.take(
                        n as int,
                    )[e].account_id != ids[j] by {
                        if j < before.len() {
                            assert(before[j] == ids[j]);
                            assert(m.covered.take(n - 1)[e].account_id != before[j]);
                        } else {
                            assert(m.covered[e].account_id != id);
                        }
                    }
                    assert(m.covered.take(n - 1)[k] == m.covered.take(n as int)[k]);
                    assert(comes_first(m.covered.take(n as int), ids, i, k));
                } else {
                    assert forall|j: int, e: int|
                        #![trigger ids[j], m.covered.take(n as int)[e]]
                        i <= j < ids.len() && 0 <= e < n - 1 implies m.covered.take(
                        n as int,
                    )[e].account_id != ids[j] by {
                        assert(m.covered[e].account_id != id);
                    }
                    assert(comes_first(m.covered.take(n as int), ids, i, n - 1));
                }
            }
        } else {
            assert(ids == before);
            assert forall|i: int| 0 <= i < ids.len() implies #[trigger] comes_in_order(
                m.covered.take(n as int),
                ids,
                i,
            ) by {
                assert(before[i] == ids[i]);
                assert(comes_in_order(m.covered.take(n - 1), before, i));
                let k = choose|k: int| #[trigger] comes_first(m.covered.take(n - 1), before, i, k);
                assert forall|j: int, e: int|
                    #![trigger ids[j], m.covered.take(n as int)[e]]
                    i <= j < ids.len() && 0 <= e < k implies m.covered.take(
                    n as int,
                )[e].account_id != ids[j] by {
                    assert(m.covered.take(n - 1)[e].account_id != before[j]);
                }
                assert(m.covered.take(n - 1)[k] == m.covered.take(n as int)[k]);
                assert(comes_first(m.covered.take(n as int), ids, i, k));
            }
        }
        assert forall|other: AccountId| #[trigger] ids.contains(other) <==> !m.is_private(other)
            && settled_within(m.covered, n as int, other) by {
            assert(before.contains(other) <==> !m.is_private(other) && settled_within(
                m.covered,
                n - 1,
                other,
            ));
            assert(settled_within(m.covered, n as int, other) <==> (settled_within(
                m.covered,
                n - 1,
                other,
            ) || other == id));
        }
    } else {
        let ids = m.public_ids(n);
        assert forall|other: AccountId| #[trigger] ids.contains(other) <==> !m.is_private(other)
            && settled_within(m.covered, n as int, other) by {}
    }
}

/// The journal has one action for each public account of a settled position, in the order in which
/// the accounts were settled first, and none for any other; one note for each witness; and the
/// window of the traversal.
pub proof fn law_journals_list_public_accounts_once(m: TraversalModel, id: AccountId)
    ensures
        ({
            let ids = Seq::new(
                m.journal().public_actions.len(),
                |i: int| m.journal().public_actions[i].account_id,
            );
            &&& ids.no_duplicates()
            &&& ids.contains(id) <==> !m.is_private(id) && exists|k: int|
                0 <= k < m.covered.len() && (#[trigger] m.covered[k]).account_id == id
            &&& forall|i: int| 0 <= i < ids.len() ==> #[trigger] comes_in_order(m.covered, ids, i)
            &&& m.journal().private_notes.len() == m.witnesses.len()
            &&& m.journal().window == m.window
        }),
{
    let ids = Seq::new(
        m.journal().public_actions.len(),
        |i: int| m.journal().public_actions[i].account_id,
    );
    assert(ids =~= m.public_ids(m.covered.len()));
    lemma_public_ids(m, m.covered.len());
    assert(m.covered.take(m.covered.len() as int) =~= m.covered);
    assert(ids.contains(id) <==> m.public_ids(m.covered.len()).contains(id));
    assert(settled_within(m.covered, m.covered.len() as int, id) <==> exists|k: int|
        0 <= k < m.covered.len() && (#[trigger] m.covered[k]).account_id == id);
}

/// An action says of its account whether the root declared it, and shows it before and after: its
/// balance, and the bytes of exactly the namespaces that are settled there.
pub proof fn law_actions_show_what_was_settled(m: TraversalModel, i: int, namespace: AccountId)
    requires
        0 <= i < m.journal().public_actions.len(),
    ensures
        ({
            let action = m.journal().public_actions[i];
            let id = action.account_id;
            let p = Position { account_id: id, namespace: Some(namespace) };
            &&& action.is_authorized <==> m.declares(id)
            &&& action.pre.balance == balance_in(m.base, id)
            &&& action.post.balance == balance_in(m.current, id)
            &&& action.pre.shards.contains_key(namespace) <==> m.covered.contains(p)
            &&& action.post.shards.contains_key(namespace) <==> m.covered.contains(p)
            &&& m.covered.contains(p) ==> action.pre.shards[namespace] == shard_in(m.base, p)
            &&& m.covered.contains(p) ==> action.post.shards[namespace] == shard_in(m.current, p)
        }),
{
}

/// There is one note for each witness, in order. It names the identifier, and the program and the
/// seed where there are such; it carries the tag that was supplied for a state that is updated,
/// and the derived one for a new account, whatever the kind of the account; and it publishes what
/// the account holds in the end, under the nonce that goes with it.
pub proof fn law_notes_say_what_their_witnesses_call_for(m: TraversalModel, i: int)
    requires
        0 <= i < m.witnesses.len(),
    ensures
        ({
            let witness = m.witnesses[i];
            let note = m.journal().private_notes[i];
            let held = account_in(m.current, witness.derived.address);
            &&& m.journal().private_notes.len() == m.witnesses.len()
            &&& witness.kind is Regular ==> note.kind == PrivateAccountKind::Regular(
                witness.identifier,
            )
            &&& witness.kind matches WitnessKind::Pda { program, seed } ==> note.kind == (
            PrivateAccountKind::Pda { account_id: program, seed, identifier: witness.identifier })
            &&& witness.nullifier matches NullifierModel::Update { view_tag, .. } ==> note.view_tag
                == view_tag && note.account.nonce == witness.derived.advanced_nonce
            &&& witness.nullifier is Init ==> note.view_tag == witness.derived.view_tag
                && note.account.nonce == witness.derived.init_nonce
            &&& note.account.balance == held.balance
            &&& note.account.shards == held.shards
            &&& m.journal().window == m.window
        }),
{
}

/// An account is touched where a settled position is of it.
pub proof fn law_settled_positions_touch_accounts(m: TraversalModel, id: AccountId)
    ensures
        m.touches(id) <==> exists|k: int|
            0 <= k < m.covered.len() && (#[trigger] m.covered[k]).account_id == id,
{
}

proof fn lemma_first_rejection(m: TraversalModel, n: nat)
    requires
        n <= m.witnesses.len(),
    ensures
        m.rejection(n) matches Some(rejection) ==> exists|i: int|
            0 <= i < n && (#[trigger] m.witnesses[i]).rejection(
                m.touches(m.witnesses[i].derived.address),
                m.declares(m.witnesses[i].derived.address),
            ) == Some(rejection) && forall|j: int|
                0 <= j < i ==> (#[trigger] m.witnesses[j]).rejection(
                    m.touches(m.witnesses[j].derived.address),
                    m.declares(m.witnesses[j].derived.address),
                ) is None,
        m.rejection(n) is None <==> forall|j: int|
            0 <= j < n ==> (#[trigger] m.witnesses[j]).rejection(
                m.touches(m.witnesses[j].derived.address),
                m.declares(m.witnesses[j].derived.address),
            ) is None,
    decreases n,
{
    if n > 0 {
        lemma_first_rejection(m, (n - 1) as nat);
        let last = m.witnesses[n - 1];
        assert(m.rejection((n - 1) as nat) is Some || m.rejection(n) == last.rejection(
            m.touches(last.derived.address),
            m.declares(last.derived.address),
        ));
        if m.rejection((n - 1) as nat) is None && m.rejection(n) is Some {
            assert(m.witnesses[n - 1].rejection(
                m.touches(m.witnesses[n - 1].derived.address),
                m.declares(m.witnesses[n - 1].derived.address),
            ) == m.rejection(n));
        }
    }
}

/// A traversal comes to its error where it failed; else to the rejection of the first witness
/// that is rejected; else to an empty window where no time is admitted; else to its journal.
pub proof fn law_outcomes_follow_failure_witnesses_window(m: TraversalModel)
    ensures
        m.failed matches Some(error) ==> m.outcome() == Err::<JournalModel, LeeError>(error),
        m.failed is None && (exists|i: int|
            0 <= i < m.witnesses.len() && (#[trigger] m.witnesses[i]).rejection(
                m.touches(m.witnesses[i].derived.address),
                m.declares(m.witnesses[i].derived.address),
            ) is Some) ==> exists|i: int|
            0 <= i < m.witnesses.len() && m.outcome() == Err::<JournalModel, LeeError>(
                LeeError::CircuitProvingError(
                    (#[trigger] m.witnesses[i]).rejection(
                        m.touches(m.witnesses[i].derived.address),
                        m.declares(m.witnesses[i].derived.address),
                    )->0,
                ),
            ) && m.witnesses[i].rejection(
                m.touches(m.witnesses[i].derived.address),
                m.declares(m.witnesses[i].derived.address),
            ) is Some && forall|j: int|
                0 <= j < i ==> (#[trigger] m.witnesses[j]).rejection(
                    m.touches(m.witnesses[j].derived.address),
                    m.declares(m.witnesses[j].derived.address),
                ) is None,
        m.failed is None && (forall|i: int|
            0 <= i < m.witnesses.len() ==> (#[trigger] m.witnesses[i]).rejection(
                m.touches(m.witnesses[i].derived.address),
                m.declares(m.witnesses[i].derived.address),
            ) is None) ==> m.outcome() == if m.window.to is Some && (m.window.to->0 == 0 || (
        m.window.from is Some && m.window.to->0 <= m.window.from->0)) {
            Err::<JournalModel, LeeError>(
                LeeError::CircuitProvingError(CircuitRejection::EmptyValidityWindow),
            )
        } else {
            Ok::<JournalModel, LeeError>(m.journal())
        },
{
    lemma_first_rejection(m, m.witnesses.len());
    law_windows_run_from_start_to_end(m.window, 0);
    if m.failed is None && m.rejection(m.witnesses.len()) is Some {
        let rejection = m.rejection(m.witnesses.len())->0;
        let i = choose|i: int|
            0 <= i < m.witnesses.len() && (#[trigger] m.witnesses[i]).rejection(
                m.touches(m.witnesses[i].derived.address),
                m.declares(m.witnesses[i].derived.address),
            ) == Some(rejection) && forall|j: int|
                0 <= j < i ==> (#[trigger] m.witnesses[j]).rejection(
                    m.touches(m.witnesses[j].derived.address),
                    m.declares(m.witnesses[j].derived.address),
                ) is None;
        assert(m.outcome() == Err::<JournalModel, LeeError>(
            LeeError::CircuitProvingError(
                m.witnesses[i].rejection(
                    m.touches(m.witnesses[i].derived.address),
                    m.declares(m.witnesses[i].derived.address),
                )->0,
            ),
        ));
    }
}

} // verus!
