//! What an attempt to spend a program-derived private account comes to.
use crate::account::{
    account_in, balance_in, world_with_balance, AccountModel, AccountViewModel,
};
use crate::codec::le_bytes;
use crate::error::{CircuitRejection, LeeError};
use crate::model::{
    cover, cover_all, diff_allowed, diff_applied, diffs_applied, opened, reported, scoped, started,
    CallModel, DueModel, Event, JournalModel, PrivateNoteModel, PublicActionModel, RunModel,
    TraversalModel,
};
use crate::position::{AccountId, Position};
use crate::program::{
    BalanceDiff, ChainedCallModel, InputModel, PdaSeed, ProgramOutputModel, ShardStateDiffModel,
    ValidityWindow,
};
use crate::requests::{derived_spend, one_unit};
use crate::witness::{
    law_grants_are_what_witnesses_name, private_grants, PrivateAccountKind, WitnessKind,
    WitnessModel,
};
use vstd::prelude::*;

verus! {

/// The answer of a program that leaves its positions alone and has `transfer_id` move `amount`
/// between them, under `seed`.
pub open spec fn spend_answer(
    run: RunModel,
    seed: PdaSeed,
    amount: u128,
    transfer_id: AccountId,
) -> ProgramOutputModel {
    ProgramOutputModel {
        self_account_id: run.program,
        caller_account_id: run.caller,
        instruction_data: run.instruction_data,
        state_diffs: run.pre_states.map_values(
            |state: InputModel| ShardStateDiffModel::unchanged(state),
        ),
        chained_calls: seq![
            ChainedCallModel {
                program_account_id: transfer_id,
                instruction_data: le_bytes(amount as nat, 16),
                positions: run.pre_states.map_values(|state: InputModel| state.position()),
                pda_seeds: seq![seed],
            },
        ],
        validity_window: ValidityWindow::always(),
    }
}

/// The answer of a program that moves `amount` from its first position to its second.
pub open spec fn transfer_answer(run: RunModel, amount: u128) -> ProgramOutputModel {
    ProgramOutputModel {
        self_account_id: run.program,
        caller_account_id: run.caller,
        instruction_data: run.instruction_data,
        state_diffs: seq![
            ShardStateDiffModel {
                pre: run.pre_states[0],
                balance_diff: BalanceDiff::Sub(amount),
                post_data: run.pre_states[0].data,
            },
            ShardStateDiffModel {
                pre: run.pre_states[1],
                balance_diff: BalanceDiff::Add(amount),
                post_data: run.pre_states[1].data,
            },
        ],
        chained_calls: Seq::empty(),
        validity_window: ValidityWindow::always(),
    }
}

/// What a spend that goes through publishes: one unit reached the recipient, and the note of the
/// spent account says that nothing is left, under the nonce that its witness calls for.
pub open spec fn spend_journal(recipient_id: AccountId, witness: WitnessModel) -> JournalModel {
    JournalModel {
        public_actions: seq![
            PublicActionModel {
                account_id: recipient_id,
                is_authorized: true,
                pre: AccountViewModel { balance: 0, shards: Map::empty() },
                post: AccountViewModel { balance: 1, shards: Map::empty() },
            },
        ],
        private_notes: seq![
            PrivateNoteModel {
                kind: witness.noted_kind(),
                view_tag: witness.noted_view_tag(),
                account: AccountModel::untouched().with_nonce(witness.noted_nonce()),
            },
        ],
        window: ValidityWindow::always(),
    }
}

/// What an attempt to spend `pda_id` comes to.
pub open spec fn spend_outcome(
    pda_id: AccountId,
    recipient_id: AccountId,
    witness: WitnessModel,
    declare_authorized: bool,
) -> Result<JournalModel, LeeError> {
    if pda_id == recipient_id && witness.derived.address != pda_id {
        Err(LeeError::InvalidProgramBehavior)
    } else if witness.derived.address != pda_id && witness.derived.address != recipient_id {
        Err(LeeError::CircuitProvingError(CircuitRejection::UnmatchedWitness))
    } else if declare_authorized || witness.derived.address == recipient_id {
        Err(LeeError::CircuitProvingError(CircuitRejection::RootPdaAuthorization))
    } else {
        Ok(spend_journal(recipient_id, witness))
    }
}

/// The positions of a spend, in order.
spec fn spend_positions(pda_id: AccountId, recipient_id: AccountId) -> Seq<Position> {
    seq![
        Position { account_id: pda_id, namespace: None },
        Position { account_id: recipient_id, namespace: None },
    ]
}

/// Covering what is covered changes nothing.
proof fn lemma_cover_known(covered: Seq<Position>, positions: Seq<Position>)
    requires
        forall|i: int| 0 <= i < positions.len() ==> covered.contains(#[trigger] positions[i]),
    ensures
        cover_all(covered, positions) == covered,
    decreases positions.len(),
{
    if positions.len() > 0 {
        let rest = positions.drop_last();
        assert forall|i: int| 0 <= i < rest.len() implies covered.contains(#[trigger] rest[i]) by {
            assert(rest[i] == positions[i]);
        }
        lemma_cover_known(covered, rest);
        assert(covered.contains(positions[positions.len() - 1]));
    }
}

/// Balances are never waited for.
proof fn lemma_balances_are_settled(m: TraversalModel, positions: Seq<Position>)
    requires
        forall|i: int| 0 <= i < positions.len() ==> (#[trigger] positions[i]).namespace is None,
    ensures
        m.first_unsettled(positions) is None,
    decreases positions.len(),
{
    if positions.len() > 0 {
        assert(positions[0].namespace is None);
        let rest = positions.drop_first();
        assert forall|i: int| 0 <= i < rest.len() implies (#[trigger] rest[i]).namespace is None by {
            assert(rest[i] == positions[i + 1]);
        }
        lemma_balances_are_settled(m, rest);
    }
}

proof fn lemma_two_diffs(
    world: Map<AccountId, AccountModel>,
    first: ShardStateDiffModel,
    second: ShardStateDiffModel,
)
    ensures
        diffs_applied(world, seq![first, second]) == match diff_applied(world, first) {
            Some(between) => diff_applied(between, second),
            None => None,
        },
        reported(seq![first, second]) == seq![first.pre.position(), second.pre.position()],
{
    reveal_with_fuel(diffs_applied, 3);
    let both = seq![first, second];
    assert(both.drop_last() =~= seq![first]);
    assert(both.drop_last().drop_last() =~= Seq::empty());
    assert(reported(both) =~= seq![first.pre.position(), second.pre.position()]);
}

/// The two positions of a spend, covered from nothing.
proof fn lemma_spend_covered(pda_id: AccountId, recipient_id: AccountId)
    ensures
        cover_all(Seq::empty(), spend_positions(pda_id, recipient_id)) == if pda_id
            == recipient_id {
            seq![Position { account_id: pda_id, namespace: None }]
        } else {
            spend_positions(pda_id, recipient_id)
        },
{
    reveal_with_fuel(cover_all, 3);
    let positions = spend_positions(pda_id, recipient_id);
    let first = positions[0];
    assert(positions.drop_last() =~= seq![first]);
    assert(positions.drop_last().drop_last() =~= Seq::empty());
    assert(cover(Seq::empty(), first) =~= seq![first]);
    assert(seq![first][0] == first);
    assert(seq![first].push(positions[1]) =~= positions);
}

/// The spending program runs first, and leaves every account as it is.
proof fn lemma_spend_root(
    m: TraversalModel,
    call: CallModel,
    seed: PdaSeed,
    transfer_id: AccountId,
    pda_id: AccountId,
    recipient_id: AccountId,
    granted: Seq<AccountId>,
)
    requires
        m.failed is None,
        m.pending == seq![call],
        call.positions == spend_positions(pda_id, recipient_id),
        m.covered.contains(call.positions[0]),
        m.covered.contains(call.positions[1]),
        m.programs.contains(transfer_id),
        m.window == ValidityWindow::always(),
    ensures
        ({
            let run = m.due()->Run_0;
            let after = m.after(
                Event::Ran(spend_answer(run, seed, 1, transfer_id), seq![granted]),
            );
            &&& m.due() is Run
            &&& run.program == call.program
            &&& run.pre_states.len() == 2
            &&& run.pre_states[0] == m.input_at(call.granted, call.positions[0])
            &&& after == (TraversalModel {
                current: after.current,
                pending: seq![
                    CallModel {
                        program: transfer_id,
                        caller: Some(call.program),
                        positions: call.positions,
                        instruction_data: le_bytes(1, 16),
                        granted: granted + private_grants(
                            m.witnesses,
                            call.program,
                            seq![seed],
                        ),
                    },
                ],
                ..m
            })
            &&& forall|id: AccountId| #[trigger]
                account_in(after.current, id) == account_in(m.current, id)
        }),
{
    lemma_balances_are_settled(m, call.positions);
    let run = m.run_of(call);
    assert(m.due() == DueModel::Run(run));
    let first = m.input_at(call.granted, call.positions[0]);
    let second = m.input_at(call.granted, call.positions[1]);
    assert(run.pre_states =~= seq![first, second]);
    let answer = spend_answer(run, seed, 1, transfer_id);
    let d = ShardStateDiffModel::unchanged(first);
    let e = ShardStateDiffModel::unchanged(second);
    assert(answer.state_diffs =~= seq![d, e]);
    lemma_two_diffs(m.current, d, e);
    let between = world_with_balance(m.current, pda_id, balance_in(m.current, pda_id));
    assert(diff_applied(m.current, d) == Some(between));
    assert(forall|id: AccountId| #[trigger]
        account_in(between, id) == account_in(m.current, id));
    assert(diff_allowed(m.current, call.program, d));
    assert(diff_allowed(m.current, call.program, e));
    assert(m.accepts(call.program, answer));
    let after = m.after(Event::Ran(answer, seq![granted]));
    lemma_cover_known(m.covered, call.positions);
    lemma_cover_known(m.covered, reported(answer.state_diffs));
    assert(answer.chained_calls[0].positions =~= call.positions);
    assert(after.pending =~= seq![
        CallModel {
            program: transfer_id,
            caller: Some(call.program),
            positions: call.positions,
            instruction_data: le_bytes(1, 16),
            granted: granted + private_grants(m.witnesses, call.program, seq![seed]),
        },
    ]);
}

/// The transfer runs next: it moves one unit, or fails for want of it.
proof fn lemma_spend_transfer(
    m: TraversalModel,
    call: CallModel,
    pda_id: AccountId,
    recipient_id: AccountId,
)
    requires
        m.failed is None,
        m.pending == seq![call],
        call.positions == spend_positions(pda_id, recipient_id),
        m.covered.contains(call.positions[0]),
        m.covered.contains(call.positions[1]),
        m.window == ValidityWindow::always(),
        balance_in(m.current, recipient_id) < u128::MAX,
    ensures
        ({
            let run = m.due()->Run_0;
            let end = m.after(Event::Ran(transfer_answer(run, 1), Seq::empty()));
            let spent = AccountModel {
                balance: (balance_in(m.current, pda_id) - 1) as u128,
                ..account_in(m.current, pda_id)
            };
            let received = AccountModel {
                balance: (balance_in(m.current, recipient_id) + 1) as u128,
                ..account_in(m.current, recipient_id)
            };
            &&& m.due() is Run
            &&& run.program == call.program
            &&& run.caller == call.caller
            &&& run.instruction_data == call.instruction_data
            &&& run.pre_states.len() == 2
            &&& run.pre_states[0] == m.input_at(call.granted, call.positions[0])
            &&& balance_in(m.current, pda_id) == 0 ==> end == m.aborted(
                LeeError::InvalidProgramBehavior,
            )
            &&& balance_in(m.current, pda_id) > 0 ==> end == (TraversalModel {
                current: end.current,
                pending: Seq::empty(),
                ..m
            })
            &&& balance_in(m.current, pda_id) > 0 && pda_id != recipient_id ==> account_in(
                end.current,
                pda_id,
            ) == spent && account_in(end.current, recipient_id) == received
        }),
{
    lemma_balances_are_settled(m, call.positions);
    let run = m.run_of(call);
    assert(m.due() == DueModel::Run(run));
    let first = m.input_at(call.granted, call.positions[0]);
    let second = m.input_at(call.granted, call.positions[1]);
    assert(run.pre_states =~= seq![first, second]);
    let answer = transfer_answer(run, 1);
    let d = ShardStateDiffModel {
        pre: first,
        balance_diff: BalanceDiff::Sub(1),
        post_data: first.data,
    };
    let e = ShardStateDiffModel {
        pre: second,
        balance_diff: BalanceDiff::Add(1),
        post_data: second.data,
    };
    assert(answer.state_diffs =~= seq![d, e]);
    lemma_two_diffs(m.current, d, e);
    assert(diff_allowed(m.current, call.program, d));
    assert(diff_allowed(m.current, call.program, e));
    let end = m.after(Event::Ran(answer, Seq::empty()));
    if balance_in(m.current, pda_id) > 0 {
        assert(diffs_applied(m.current, answer.state_diffs) is Some);
        assert(m.accepts(call.program, answer));
        lemma_cover_known(m.covered, call.positions);
        lemma_cover_known(m.covered, reported(answer.state_diffs));
        assert(end.pending =~= Seq::empty());
    } else {
        assert(diffs_applied(m.current, answer.state_diffs) is None);
        assert(!m.accepts(call.program, answer));
    }
}

/// What the circuit says of the one witness of a spend.
proof fn lemma_spend_rejection(
    m: TraversalModel,
    pda_id: AccountId,
    recipient_id: AccountId,
    witness: WitnessModel,
    declare_authorized: bool,
)
    requires
        m.failed is None,
        m.witnesses == seq![witness],
        witness.kind is Pda,
        m.window == ValidityWindow::always(),
        m.covered == cover_all(Seq::empty(), spend_positions(pda_id, recipient_id)),
        m.signers == if declare_authorized {
            seq![recipient_id, pda_id]
        } else {
            seq![recipient_id]
        },
    ensures
        m.outcome() == if witness.derived.address != pda_id && witness.derived.address != recipient_id {
            Err::<JournalModel, LeeError>(
                LeeError::CircuitProvingError(CircuitRejection::UnmatchedWitness),
            )
        } else if declare_authorized || witness.derived.address == recipient_id {
            Err::<JournalModel, LeeError>(
                LeeError::CircuitProvingError(CircuitRejection::RootPdaAuthorization),
            )
        } else {
            Ok::<JournalModel, LeeError>(m.journal())
        },
        m.declares(recipient_id),
{
    lemma_spend_covered(pda_id, recipient_id);
    let id = witness.derived.address;
    reveal_with_fuel(TraversalModel::rejection, 2);
    assert(m.rejection(1) == witness.rejection(m.touches(id), m.declares(id)));
    assert(m.covered[0].account_id == pda_id);
    if pda_id != recipient_id {
        assert(m.covered[1].account_id == recipient_id);
    }
    assert(m.touches(id) == (id == pda_id || id == recipient_id)) by {
        if m.touches(id) {
            let i = choose|i: int|
                0 <= i < m.covered.len() && (#[trigger] m.covered[i]).account_id == id;
            assert(i == 0 || i == 1);
        }
    }
    assert(m.signers[0] == recipient_id);
    assert(m.declares(recipient_id));
    assert(!m.witnesses[0].shows_credential());
    assert(m.declares(id) == m.signers.contains(id));
    if declare_authorized {
        assert(m.signers[1] == pda_id);
    }
    if m.signers.contains(id) {
        let i = m.signers.index_of(id);
        assert(i == 0 || i == 1);
    }
    assert(m.window.admits(0));
}

/// What a spend that is not rejected publishes.
proof fn lemma_spend_journal(
    m: TraversalModel,
    pda_id: AccountId,
    recipient_id: AccountId,
    witness: WitnessModel,
)
    requires
        pda_id != recipient_id,
        witness.derived.address == pda_id,
        m.witnesses == seq![witness],
        m.window == ValidityWindow::always(),
        m.covered == spend_positions(pda_id, recipient_id),
        m.declares(recipient_id),
        balance_in(m.base, recipient_id) == 0,
        balance_in(m.current, recipient_id) == 1,
        account_in(m.current, pda_id) == AccountModel::untouched(),
    ensures
        m.journal() == spend_journal(recipient_id, witness),
{
    let wanted = spend_journal(recipient_id, witness);
    assert(m.witnesses[0].derived.address == pda_id);
    assert(m.is_private(pda_id));
    assert(!m.is_private(recipient_id));
    assert(m.covered[0].account_id == pda_id && m.covered[1].account_id == recipient_id);
    assert(m.public_ids(2) =~= seq![recipient_id]) by {
        reveal_with_fuel(TraversalModel::public_ids, 3);
        assert(Seq::<AccountId>::empty().push(recipient_id) =~= seq![recipient_id]);
    }
    assert forall|namespace: AccountId| !m.covered.contains(
        Position { account_id: recipient_id, namespace: Some(namespace) },
    ) by {
        assert(m.covered[0].namespace is None && m.covered[1].namespace is None);
    }
    assert(scoped(m.base, m.covered, recipient_id).shards =~= Map::empty());
    assert(scoped(m.current, m.covered, recipient_id).shards =~= Map::empty());
    assert(m.public_action(recipient_id) == wanted.public_actions[0]);
    assert(m.journal().public_actions =~= wanted.public_actions);
    assert(m.journal().private_notes =~= wanted.private_notes);
}

/// An attempt to spend one unit of a program-derived account succeeds exactly where nothing is
/// declared and the witness opens the account that is spent, for a recipient other than that
/// account; one unit then moves to the recipient, and the note carries the program, the seed and
/// the identifier, and a state without balance under the nonce that follows. Every other attempt
/// fails, and for a stated reason. The seed authorizes the account that the witness opens, in the
/// transfer and not at the root.
///
/// `granted` are the public accounts that the seed is found to derive. They do not matter.
pub proof fn law_derived_accounts_are_spent_under_their_own_witness(
    program: AccountId,
    transfer_id: AccountId,
    seed: PdaSeed,
    pda_id: AccountId,
    recipient_id: AccountId,
    witness: WitnessModel,
    declare_authorized: bool,
    granted: Seq<AccountId>,
    reach: Set<AccountId>,
)
    requires
        reach.contains(transfer_id),
        witness.account == one_unit(),
        witness.kind == (WitnessKind::Pda { program, seed }),
    ensures
        ({
            let input = derived_spend(
                transfer_id,
                seed,
                pda_id,
                recipient_id,
                witness,
                declare_authorized,
            );
            let start = started(input, program, reach);
            let root = start.due()->Run_0;
            let spending = start.after(
                Event::Ran(spend_answer(root, seed, 1, transfer_id), seq![granted]),
            );
            let transfer = spending.due()->Run_0;
            let end = spending.after(Event::Ran(transfer_answer(transfer, 1), Seq::empty()));
            &&& start.due() is Run
            &&& root.program == program
            &&& spending.due() is Run
            &&& transfer.program == transfer_id
            &&& transfer.caller == Some(program)
            &&& transfer.instruction_data == le_bytes(1, 16)
            &&& root.pre_states[0].is_authorized == (declare_authorized || pda_id == recipient_id)
            &&& witness.derived.address == pda_id ==> transfer.pre_states[0].is_authorized
            &&& end.due() is Finished || end.due() is Failed
            &&& end.asked == Seq::<Position>::empty()
            &&& end.outcome() == spend_outcome(pda_id, recipient_id, witness, declare_authorized)
            &&& end.outcome() is Ok <==> !declare_authorized && witness.derived.address == pda_id
                && pda_id != recipient_id
            &&& witness.nullifier is Update ==> (end.outcome() matches Ok(journal)
                ==> journal.private_notes == seq![
                PrivateNoteModel {
                    kind: PrivateAccountKind::Pda {
                        account_id: program,
                        seed,
                        identifier: witness.identifier,
                    },
                    view_tag: witness.noted_view_tag(),
                    account: AccountModel {
                        balance: 0,
                        nonce: witness.derived.advanced_nonce,
                        shards: Map::empty(),
                    },
                },
            ])
        }),
{
    let input = derived_spend(
        transfer_id,
        seed,
        pda_id,
        recipient_id,
        witness,
        declare_authorized,
    );
    let start = started(input, program, reach);
    let positions = spend_positions(pda_id, recipient_id);
    assert(input.positions =~= positions);
    lemma_spend_covered(pda_id, recipient_id);
    assert(start.covered[0] == positions[0]);
    if pda_id != recipient_id {
        assert(start.covered[1] == positions[1]);
    }
    assert(start.base == input.public_accounts.insert(witness.derived.address, one_unit())) by {
        reveal_with_fuel(opened, 2);
        assert(seq![witness].drop_last() =~= Seq::empty());
    }
    lemma_spend_root(
        start,
        start.pending[0],
        seed,
        transfer_id,
        pda_id,
        recipient_id,
        granted,
    );
    let spending = start.after(
        Event::Ran(spend_answer(start.due()->Run_0, seed, 1, transfer_id), seq![granted]),
    );
    assert(start.declares(pda_id) == (declare_authorized || pda_id == recipient_id)) by {
        assert(!start.witnesses[0].shows_credential());
        assert(start.signers[0] == recipient_id);
        if declare_authorized {
            assert(start.signers[1] == pda_id);
        }
        if start.signers.contains(pda_id) {
            let i = start.signers.index_of(pda_id);
            assert(i == 0 || i == 1);
        }
    }
    if witness.derived.address == pda_id {
        let own = private_grants(start.witnesses, program, seq![seed]);
        assert(seq![seed][0] == seed);
        assert(start.witnesses[0].derived_by(program, seq![seed]));
        law_grants_are_what_witnesses_name(start.witnesses, program, seq![seed], pda_id);
        let all = spending.pending[0].granted;
        assert(all == granted + own);
        assert(all[granted.len() + own.index_of(pda_id)] == pda_id);
    }
    assert(account_in(spending.current, pda_id) == account_in(start.current, pda_id));
    assert(account_in(spending.current, recipient_id) == account_in(start.current, recipient_id));
    lemma_spend_transfer(spending, spending.pending[0], pda_id, recipient_id);
    let end = spending.after(
        Event::Ran(transfer_answer(spending.due()->Run_0, 1), Seq::empty()),
    );
    if balance_in(spending.current, pda_id) > 0 {
        lemma_spend_rejection(end, pda_id, recipient_id, witness, declare_authorized);
        if pda_id != recipient_id && witness.derived.address == pda_id {
            lemma_spend_journal(end, pda_id, recipient_id, witness);
        }
    }
}

} // verus!
