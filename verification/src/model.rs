//! What a traversal is: the states it goes through, what is due in each, and what each event
//! makes of it.
//!
//! A transaction starts as one call of its root program. Running a program is outside work, and
//! so is fetching a shard; the traversal says which is due and takes in the result.
use crate::account::{
    account_in, balance_in, shard_in, world_with_balance, world_with_shard, AccountModel,
    AccountViewModel,
};
use crate::error::{CircuitRejection, LeeError};
use crate::position::{AccountId, Position};
use crate::program::{
    moved_balance, ChainedCallModel, InputModel, ProgramOutputModel, ShardStateDiffModel,
    ValidityWindow,
};
use crate::witness::{private_grants, PrivateAccountKind, WitnessModel};
use vstd::prelude::*;

verus! {

/// A call that waits for its turn. `granted` are the accounts that the caller's seeds derive: the
/// call may act for them.
#[verifier::ext_equal]
pub struct CallModel {
    pub program: AccountId,
    pub caller: Option<AccountId>,
    pub positions: Seq<Position>,
    pub instruction_data: Seq<u8>,
    pub granted: Seq<AccountId>,
}

/// A run that is due.
#[verifier::ext_equal]
pub struct RunModel {
    pub program: AccountId,
    pub caller: Option<AccountId>,
    pub pre_states: Seq<InputModel>,
    pub instruction_data: Seq<u8>,
}

/// What a transaction is made of.
#[verifier::ext_equal]
pub struct ProvingInputModel {
    pub positions: Seq<Position>,
    pub signers: Seq<AccountId>,
    pub public_accounts: Map<AccountId, AccountModel>,
    pub private_witnesses: Seq<WitnessModel>,
    pub instruction_data: Seq<u8>,
}

/// A traversal under way.
///
/// `base` is what the accounts hold before the transaction, as far as it was supplied or
/// fetched; `current` is what they hold after the runs so far. `covered` are the positions
/// whose value is settled, in the order in which they were. The last call of `pending` is next.
#[verifier::ext_equal]
pub struct TraversalModel {
    pub base: Map<AccountId, AccountModel>,
    pub current: Map<AccountId, AccountModel>,
    pub covered: Seq<Position>,
    pub asked: Seq<Position>,
    pub signers: Seq<AccountId>,
    pub witnesses: Seq<WitnessModel>,
    pub programs: Set<AccountId>,
    pub pending: Seq<CallModel>,
    pub window: ValidityWindow,
    pub failed: Option<LeeError>,
}

/// What a traversal waits for.
pub enum DueModel {
    /// Nothing: it failed.
    Failed,
    /// Nothing: every call was run.
    Finished,
    /// The shard at a position that the next call names and nothing has settled.
    Resolve(Position),
    /// A run of the next call.
    Run(RunModel),
}

/// What outside work came to.
pub enum Event {
    /// A shard was asked for: `None` leaves the account as it was supplied.
    Resolved(Option<Seq<u8>>),
    /// A program answered; with each chained call come the public accounts its seeds derive.
    Ran(ProgramOutputModel, Seq<Seq<AccountId>>),
    /// The work failed.
    Failed(LeeError),
}

/// `covered` with `position`, once.
pub open spec fn cover(covered: Seq<Position>, position: Position) -> Seq<Position> {
    if covered.contains(position) {
        covered
    } else {
        covered.push(position)
    }
}

/// `covered` with each of `positions`, once.
pub open spec fn cover_all(covered: Seq<Position>, positions: Seq<Position>) -> Seq<Position>
    decreases positions.len(),
{
    if positions.len() == 0 {
        covered
    } else {
        cover(cover_all(covered, positions.drop_last()), positions.last())
    }
}

/// The accounts that witnesses open replace public ones at the same address.
pub open spec fn opened(
    world: Map<AccountId, AccountModel>,
    witnesses: Seq<WitnessModel>,
) -> Map<AccountId, AccountModel>
    decreases witnesses.len(),
{
    if witnesses.len() == 0 {
        world
    } else {
        opened(world, witnesses.drop_last()).insert(
            witnesses.last().derived.address,
            witnesses.last().account,
        )
    }
}

/// The traversal of a transaction whose root program is at `root` and may reach `programs`.
pub open spec fn started(
    input: ProvingInputModel,
    root: AccountId,
    programs: Set<AccountId>,
) -> TraversalModel {
    let world = opened(input.public_accounts, input.private_witnesses);
    TraversalModel {
        base: world,
        current: world,
        covered: cover_all(Seq::empty(), input.positions),
        asked: Seq::empty(),
        signers: input.signers,
        witnesses: input.private_witnesses,
        programs,
        pending: seq![
            CallModel {
                program: root,
                caller: None,
                positions: input.positions,
                instruction_data: input.instruction_data,
                granted: Seq::empty(),
            },
        ],
        window: ValidityWindow::always(),
        failed: None,
    }
}

/// The result of one diff on the accounts, where the balance fits.
pub open spec fn diff_applied(
    world: Map<AccountId, AccountModel>,
    diff: ShardStateDiffModel,
) -> Option<Map<AccountId, AccountModel>> {
    match moved_balance(balance_in(world, diff.pre.account_id), diff.balance_diff) {
        Some(balance) => Some(
            world_with_shard(
                world_with_balance(world, diff.pre.account_id, balance),
                diff.pre.position(),
                diff.post_data,
            ),
        ),
        None => None,
    }
}

/// The result of diffs in order, where every balance fits.
pub open spec fn diffs_applied(
    world: Map<AccountId, AccountModel>,
    diffs: Seq<ShardStateDiffModel>,
) -> Option<Map<AccountId, AccountModel>>
    decreases diffs.len(),
{
    if diffs.len() == 0 {
        Some(world)
    } else {
        match diffs_applied(world, diffs.drop_last()) {
            Some(before) => diff_applied(before, diffs.last()),
            None => None,
        }
    }
}

/// A diff starts from what the accounts hold, and changes no shard but the program's own.
pub open spec fn diff_allowed(
    world: Map<AccountId, AccountModel>,
    program: AccountId,
    diff: ShardStateDiffModel,
) -> bool {
    &&& diff.pre.balance == balance_in(world, diff.pre.account_id)
    &&& diff.pre.data == shard_in(world, diff.pre.position())
    &&& diff.post_data == diff.pre.data || diff.pre.namespace == Some(program)
}

pub open spec fn reported(diffs: Seq<ShardStateDiffModel>) -> Seq<Position> {
    diffs.map_values(|diff: ShardStateDiffModel| diff.pre.position())
}

/// The calls that `program` chained, as they wait: the first of them last. To the accounts that
/// are granted to a call come the private ones that witnesses open under its seeds.
pub open spec fn queued(
    witnesses: Seq<WitnessModel>,
    program: AccountId,
    calls: Seq<ChainedCallModel>,
    granted: Seq<Seq<AccountId>>,
) -> Seq<CallModel> {
    Seq::new(
        calls.len(),
        |i: int|
            {
                let call = calls[calls.len() - 1 - i];
                CallModel {
                    program: call.program_account_id,
                    caller: Some(program),
                    positions: call.positions,
                    instruction_data: call.instruction_data,
                    granted: granted[calls.len() - 1 - i] + private_grants(
                        witnesses,
                        program,
                        call.pda_seeds,
                    ),
                }
            },
    )
}

impl TraversalModel {
    pub open spec fn is_private(self, id: AccountId) -> bool {
        exists|i: int| 0 <= i < self.witnesses.len() && (#[trigger] self.witnesses[i]).derived.address == id
    }

    /// The root declares an account authorized where it signed, or where the witness that opens
    /// it shows a credential.
    pub open spec fn declares(self, id: AccountId) -> bool {
        ||| self.signers.contains(id)
        ||| exists|i: int|
            0 <= i < self.witnesses.len() && (#[trigger] self.witnesses[i]).derived.address == id
                && self.witnesses[i].shows_credential()
    }

    /// A shard of a public account that nothing has settled.
    pub open spec fn unsettled(self, position: Position) -> bool {
        &&& position.namespace is Some
        &&& !self.covered.contains(position)
        &&& !self.is_private(position.account_id)
    }

    /// The first of `positions` that is unsettled.
    pub open spec fn first_unsettled(self, positions: Seq<Position>) -> Option<Position>
        decreases positions.len(),
    {
        if positions.len() == 0 {
            None
        } else if self.unsettled(positions.first()) {
            Some(positions.first())
        } else {
            self.first_unsettled(positions.drop_first())
        }
    }

    pub open spec fn input_at(self, granted: Seq<AccountId>, position: Position) -> InputModel {
        InputModel {
            account_id: position.account_id,
            is_authorized: self.declares(position.account_id) || granted.contains(
                position.account_id,
            ),
            balance: balance_in(self.current, position.account_id),
            namespace: position.namespace,
            data: shard_in(self.current, position),
        }
    }

    /// The run of `call` on what the accounts hold now.
    pub open spec fn run_of(self, call: CallModel) -> RunModel {
        RunModel {
            program: call.program,
            caller: call.caller,
            pre_states: call.positions.map_values(
                |position: Position| self.input_at(call.granted, position),
            ),
            instruction_data: call.instruction_data,
        }
    }

    pub open spec fn due(self) -> DueModel {
        if self.failed is Some {
            DueModel::Failed
        } else if self.pending.len() == 0 {
            DueModel::Finished
        } else {
            match self.first_unsettled(self.pending.last().positions) {
                Some(position) => DueModel::Resolve(position),
                None => DueModel::Run(self.run_of(self.pending.last())),
            }
        }
    }

    /// `position` is settled; what was fetched for it, if anything was, is merged in.
    pub open spec fn resolved(self, position: Position, answer: Option<Seq<u8>>) -> TraversalModel {
        TraversalModel {
            base: match answer {
                Some(bytes) => world_with_shard(self.base, position, bytes),
                None => self.base,
            },
            current: match answer {
                Some(bytes) => world_with_shard(self.current, position, bytes),
                None => self.current,
            },
            covered: self.covered.push(position),
            asked: self.asked.push(position),
            ..self
        }
    }

    pub open spec fn aborted(self, error: LeeError) -> TraversalModel {
        TraversalModel { failed: Some(error), ..self }
    }

    /// The program at `program` may answer `output` here.
    pub open spec fn accepts(self, program: AccountId, output: ProgramOutputModel) -> bool {
        &&& forall|i: int|
            0 <= i < output.state_diffs.len() ==> diff_allowed(
                self.current,
                program,
                #[trigger] output.state_diffs[i],
            )
        &&& diffs_applied(self.current, output.state_diffs) is Some
        &&& forall|i: int|
            0 <= i < output.chained_calls.len() ==> self.programs.contains(
                (#[trigger] output.chained_calls[i]).program_account_id,
            )
    }

    /// The next call was run and answered `output`.
    pub open spec fn ran(
        self,
        output: ProgramOutputModel,
        granted: Seq<Seq<AccountId>>,
    ) -> TraversalModel {
        let call = self.pending.last();
        if !self.accepts(call.program, output) {
            self.aborted(LeeError::InvalidProgramBehavior)
        } else {
            TraversalModel {
                current: diffs_applied(self.current, output.state_diffs)->0,
                covered: cover_all(
                    cover_all(self.covered, call.positions),
                    reported(output.state_diffs),
                ),
                pending: self.pending.drop_last() + queued(
                    self.witnesses,
                    call.program,
                    output.chained_calls,
                    granted,
                ),
                window: self.window.meet(output.validity_window),
                ..self
            }
        }
    }

    /// What `event` makes of the traversal. An event that answers nothing due changes nothing.
    pub open spec fn after(self, event: Event) -> TraversalModel {
        match (self.due(), event) {
            (DueModel::Resolve(position), Event::Resolved(answer)) => self.resolved(
                position,
                answer,
            ),
            (DueModel::Run(_), Event::Ran(output, granted)) => self.ran(output, granted),
            (DueModel::Resolve(_), Event::Failed(error)) => self.aborted(error),
            (DueModel::Run(_), Event::Failed(error)) => self.aborted(error),
            _ => self,
        }
    }

    pub open spec fn after_all(self, events: Seq<Event>) -> TraversalModel
        decreases events.len(),
    {
        if events.len() == 0 {
            self
        } else {
            self.after_all(events.drop_last()).after(events.last())
        }
    }
}

/// What a transaction saw and did at one public account.
#[verifier::ext_equal]
pub struct PublicActionModel {
    pub account_id: AccountId,
    pub is_authorized: bool,
    pub pre: AccountViewModel,
    pub post: AccountViewModel,
}

/// What the note of one private account is made from, with the state as it is published.
#[verifier::ext_equal]
pub struct PrivateNoteModel {
    pub kind: PrivateAccountKind,
    pub view_tag: u8,
    pub account: AccountModel,
}

/// What a transaction publishes.
#[verifier::ext_equal]
pub struct JournalModel {
    pub public_actions: Seq<PublicActionModel>,
    pub private_notes: Seq<PrivateNoteModel>,
    pub window: ValidityWindow,
}

/// The part of an account that `covered` names.
pub open spec fn scoped(
    world: Map<AccountId, AccountModel>,
    covered: Seq<Position>,
    id: AccountId,
) -> AccountViewModel {
    AccountViewModel {
        balance: balance_in(world, id),
        shards: Map::new(
            |namespace: AccountId|
                covered.contains(Position { account_id: id, namespace: Some(namespace) }),
            |namespace: AccountId|
                shard_in(world, Position { account_id: id, namespace: Some(namespace) }),
        ),
    }
}

impl TraversalModel {
    pub open spec fn touches(self, id: AccountId) -> bool {
        exists|i: int| 0 <= i < self.covered.len() && (#[trigger] self.covered[i]).account_id == id
    }

    /// The public accounts of the first `n` covered positions, each once, in that order.
    pub open spec fn public_ids(self, n: nat) -> Seq<AccountId>
        decreases n,
    {
        if n == 0 {
            Seq::empty()
        } else {
            let before = self.public_ids((n - 1) as nat);
            let id = self.covered[n - 1].account_id;
            if self.is_private(id) || before.contains(id) {
                before
            } else {
                before.push(id)
            }
        }
    }

    pub open spec fn public_action(self, id: AccountId) -> PublicActionModel {
        PublicActionModel {
            account_id: id,
            is_authorized: self.declares(id),
            pre: scoped(self.base, self.covered, id),
            post: scoped(self.current, self.covered, id),
        }
    }

    pub open spec fn private_note(self, witness: WitnessModel) -> PrivateNoteModel {
        PrivateNoteModel {
            kind: witness.noted_kind(),
            view_tag: witness.noted_view_tag(),
            account: account_in(self.current, witness.derived.address).with_nonce(
                witness.noted_nonce(),
            ),
        }
    }

    pub open spec fn journal(self) -> JournalModel {
        JournalModel {
            public_actions: self.public_ids(self.covered.len()).map_values(
                |id: AccountId| self.public_action(id),
            ),
            private_notes: self.witnesses.map_values(
                |witness: WitnessModel| self.private_note(witness),
            ),
            window: self.window,
        }
    }

    /// What is wrong with the first witness, of the first `n`, with which anything is.
    pub open spec fn rejection(self, n: nat) -> Option<CircuitRejection>
        decreases n,
    {
        if n == 0 {
            None
        } else {
            match self.rejection((n - 1) as nat) {
                Some(rejection) => Some(rejection),
                None => {
                    let witness = self.witnesses[n - 1];
                    witness.rejection(self.touches(witness.derived.address), self.declares(witness.derived.address))
                },
            }
        }
    }

    /// What a traversal for which nothing is due comes to.
    pub open spec fn outcome(self) -> Result<JournalModel, LeeError> {
        match self.failed {
            Some(error) => Err(error),
            None => match self.rejection(self.witnesses.len()) {
                Some(rejection) => Err(LeeError::CircuitProvingError(rejection)),
                None => if self.window.admits_nothing() {
                    Err(LeeError::CircuitProvingError(CircuitRejection::EmptyValidityWindow))
                } else {
                    Ok(self.journal())
                },
            },
        }
    }
}

} // verus!
