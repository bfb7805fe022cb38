//! The traversal of a transaction's calls.
use crate::account::{shard_in, Account, AccountModel, AccountView, World};
use crate::data::{copy_bytes, Data};
use crate::error::{CircuitRejection, LeeError};
use crate::id_map::IdMap;
use crate::model::{
    cover_all, diff_allowed, diffs_applied, opened, queued, reported, scoped, started, CallModel,
    DueModel, JournalModel, PrivateNoteModel, ProvingInputModel, PublicActionModel, RunModel,
    TraversalModel,
};
use crate::position::{contains_id, contains_position, AccountId, Position};
use crate::program::{
    calls_view, diffs_view, inputs_view, ChainedCall, Input, InstructionData, Program,
    ProgramOutput, ProgramWithDependencies, ShardStateDiff, ShardStateDiffModel, ValidityWindow,
};
use crate::witness::{granted_by, witnesses_view, PrivateAccountKind, PrivateWitness};
use vstd::prelude::*;

verus! {

/// What a transaction is made of: the positions it names at its root, who signed it, the public
/// accounts as far as they were fetched, the private accounts it opens, and the instruction.
#[derive(Debug)]
pub struct ProvingInput {
    pub positions: Vec<Position>,
    pub signers: Vec<AccountId>,
    pub public_accounts: World,
    pub private_witnesses: Vec<PrivateWitness>,
    pub instruction_data: InstructionData,
}

impl View for ProvingInput {
    type V = ProvingInputModel;

    open spec fn view(&self) -> ProvingInputModel {
        ProvingInputModel {
            positions: self.positions@,
            signers: self.signers@,
            public_accounts: self.public_accounts@,
            private_witnesses: witnesses_view(self.private_witnesses@),
            instruction_data: self.instruction_data@,
        }
    }
}

/// A call that waits for its turn.
struct PendingCall {
    program: AccountId,
    caller: Option<AccountId>,
    positions: Vec<Position>,
    instruction_data: InstructionData,
    granted: Vec<AccountId>,
}

impl View for PendingCall {
    type V = CallModel;

    closed spec fn view(&self) -> CallModel {
        CallModel {
            program: self.program,
            caller: self.caller,
            positions: self.positions@,
            instruction_data: self.instruction_data@,
            granted: self.granted@,
        }
    }
}

/// A program run that is due.
#[derive(Debug)]
pub struct RunCall {
    pub program: AccountId,
    pub caller: Option<AccountId>,
    pub pre_states: Vec<Input>,
    pub instruction_data: InstructionData,
}

impl View for RunCall {
    type V = RunModel;

    open spec fn view(&self) -> RunModel {
        RunModel {
            program: self.program,
            caller: self.caller,
            pre_states: inputs_view(self.pre_states@),
            instruction_data: self.instruction_data@,
        }
    }
}

/// What a traversal waits for.
#[derive(Debug)]
pub enum Due {
    Failed,
    Finished,
    Resolve(Position),
    Run(RunCall),
}

impl View for Due {
    type V = DueModel;

    open spec fn view(&self) -> DueModel {
        match self {
            Due::Failed => DueModel::Failed,
            Due::Finished => DueModel::Finished,
            Due::Resolve(position) => DueModel::Resolve(*position),
            Due::Run(call) => DueModel::Run(call@),
        }
    }
}

/// What a transaction saw and did at one public account.
#[derive(Debug, PartialEq, Eq)]
pub struct PublicAction {
    pub account_id: AccountId,
    pub is_authorized: bool,
    pub pre: AccountView,
    pub post: AccountView,
}

impl View for PublicAction {
    type V = PublicActionModel;

    open spec fn view(&self) -> PublicActionModel {
        PublicActionModel {
            account_id: self.account_id,
            is_authorized: self.is_authorized,
            pre: self.pre@,
            post: self.post@,
        }
    }
}

/// What the note of one private account is made from. `account` is the state that is published,
/// with the nonce it is published under.
#[derive(Debug, PartialEq, Eq)]
pub struct PrivateNote {
    pub kind: PrivateAccountKind,
    pub view_tag: u8,
    pub account: Account,
}

impl View for PrivateNote {
    type V = PrivateNoteModel;

    open spec fn view(&self) -> PrivateNoteModel {
        PrivateNoteModel { kind: self.kind, view_tag: self.view_tag, account: self.account@ }
    }
}

/// What a transaction publishes.
#[derive(Debug, PartialEq, Eq)]
pub struct Journal {
    pub public_actions: Vec<PublicAction>,
    pub private_notes: Vec<PrivateNote>,
    pub validity_window: ValidityWindow,
}

impl View for Journal {
    type V = JournalModel;

    open spec fn view(&self) -> JournalModel {
        JournalModel {
            public_actions: self.public_actions@.map_values(|action: PublicAction| action@),
            private_notes: self.private_notes@.map_values(|note: PrivateNote| note@),
            window: self.validity_window,
        }
    }
}

/// A traversal under way.
pub struct Traversal {
    base: World,
    current: World,
    covered: Vec<Position>,
    asked: Ghost<Seq<Position>>,
    signers: Vec<AccountId>,
    witnesses: Vec<PrivateWitness>,
    dependencies: IdMap<Program>,
    pending: Vec<PendingCall>,
    window: ValidityWindow,
    failed: Option<LeeError>,
}

spec fn pending_view(pending: Seq<PendingCall>) -> Seq<CallModel> {
    pending.map_values(|call: PendingCall| call@)
}

impl View for Traversal {
    type V = TraversalModel;

    closed spec fn view(&self) -> TraversalModel {
        TraversalModel {
            base: self.base@,
            current: self.current@,
            covered: self.covered@,
            asked: self.asked@,
            signers: self.signers@,
            witnesses: witnesses_view(self.witnesses@),
            programs: self.dependencies@.dom(),
            pending: pending_view(self.pending@),
            window: self.window,
            failed: self.failed,
        }
    }
}

/// Adds each of `positions` to `covered`, once.
fn cover_each(covered: &mut Vec<Position>, positions: &Vec<Position>)
    ensures
        final(covered)@ == cover_all(old(covered)@, positions@),
{
    let mut i: usize = 0;
    assert(positions@.take(0) =~= Seq::empty());
    while i < positions.len()
        invariant
            i <= positions@.len(),
            covered@ == cover_all(old(covered)@, positions@.take(i as int)),
        decreases positions.len() - i,
    {
        let position = positions[i];
        assert(positions@.take(i + 1).drop_last() =~= positions@.take(i as int));
        if !contains_position(covered, position) {
            covered.push(position);
        }
        i = i + 1;
    }
    assert(positions@.take(i as int) =~= positions@);
}

/// A prefix that does not apply keeps the whole from applying.
proof fn lemma_stuck_diffs(
    world: Map<AccountId, AccountModel>,
    diffs: Seq<ShardStateDiffModel>,
    n: int,
)
    requires
        0 <= n <= diffs.len(),
        diffs_applied(world, diffs.take(n)) is None,
    ensures
        diffs_applied(world, diffs) is None,
    decreases diffs.len() - n,
{
    if n == diffs.len() {
        assert(diffs.take(n) =~= diffs);
    } else {
        assert(diffs.take(n + 1).drop_last() =~= diffs.take(n));
        lemma_stuck_diffs(world, diffs, n + 1);
    }
}

/// Says whether a diff starts from what the accounts hold and changes no shard but the
/// program's own.
fn diff_is_allowed(world: &World, program: AccountId, diff: &ShardStateDiff) -> (allowed: bool)
    ensures
        allowed == diff_allowed(world@, program, diff@),
{
    diff.pre.balance == world.balance(diff.pre.account_id) && diff.pre.data.same_bytes(
        &world.shard(diff.pre.position()),
    ) && (diff.post_data.same_bytes(&diff.pre.data) || diff.pre.namespace == Some(program))
}

/// Applies diffs in order, where every balance fits.
fn apply_diffs(world: &World, diffs: &Vec<ShardStateDiff>) -> (applied: Option<World>)
    ensures
        applied is Some <==> diffs_applied(world@, diffs_view(diffs@)) is Some,
        applied matches Some(after) ==> diffs_applied(world@, diffs_view(diffs@)) == Some(after@),
{
    let ghost models = diffs_view(diffs@);
    let mut after = world.clone();
    let mut i: usize = 0;
    assert(models.take(0) =~= Seq::empty());
    while i < diffs.len()
        invariant
            i <= diffs@.len(),
            models == diffs_view(diffs@),
            diffs_applied(world@, models.take(i as int)) == Some(after@),
        decreases diffs.len() - i,
    {
        let diff = &diffs[i];
        proof {
            assert(models.take(i + 1).drop_last() =~= models.take(i as int));
            assert(models.take(i + 1).last() == diff@);
        }
        let balance = match diff.balance_diff.apply(after.balance(diff.pre.account_id)) {
            Some(balance) => balance,
            None => {
                proof {
                    lemma_stuck_diffs(world@, models, i + 1);
                }
                return None;
            },
        };
        after.set_balance(diff.pre.account_id, balance);
        after.set_shard(diff.pre.position(), diff.post_data.clone());
        i = i + 1;
    }
    assert(models.take(i as int) =~= models);
    Some(after)
}

impl Traversal {
    /// Starts a transaction.
    pub fn start(input: ProvingInput, program: ProgramWithDependencies) -> (traversal: Self)
        ensures
            traversal@ == started(input@, program.account_id, program.dependencies@.dom()),
    {
        let ProvingInput {
            positions,
            signers,
            public_accounts,
            private_witnesses,
            instruction_data,
        } = input;
        let ghost witnesses = witnesses_view(private_witnesses@);
        let mut base = public_accounts;
        let mut i: usize = 0;
        assert(witnesses.take(0) =~= Seq::empty());
        while i < private_witnesses.len()
            invariant
                i <= private_witnesses@.len(),
                witnesses == witnesses_view(private_witnesses@),
                base@ == opened(public_accounts@, witnesses.take(i as int)),
            decreases private_witnesses.len() - i,
        {
            let witness = &private_witnesses[i];
            assert(witnesses.take(i + 1).drop_last() =~= witnesses.take(i as int));
            assert(witnesses.take(i + 1).last() == witness@);
            base.insert(witness.derived.address, witness.account.clone());
            i = i + 1;
        }
        assert(witnesses.take(i as int) =~= witnesses);
        let mut covered: Vec<Position> = Vec::new();
        cover_each(&mut covered, &positions);
        let mut pending: Vec<PendingCall> = Vec::new();
        pending.push(
            PendingCall {
                program: program.account_id,
                caller: None,
                positions,
                instruction_data,
                granted: Vec::new(),
            },
        );
        let traversal = Traversal {
            current: base.clone(),
            base,
            covered,
            asked: Ghost(Seq::empty()),
            signers,
            witnesses: private_witnesses,
            dependencies: program.dependencies,
            pending,
            window: ValidityWindow::unbounded(),
            failed: None,
        };
        assert(traversal@.pending =~= started(
            input@,
            program.account_id,
            program.dependencies@.dom(),
        ).pending);
        traversal
    }

    fn private_account(&self, id: AccountId) -> (private: bool)
        ensures
            private == self@.is_private(id),
    {
        let mut i: usize = 0;
        while i < self.witnesses.len()
            invariant
                i <= self.witnesses@.len(),
                forall|j: int| 0 <= j < i ==> (#[trigger] self.witnesses@[j]).derived.address != id,
            decreases self.witnesses.len() - i,
        {
            if self.witnesses[i].derived.address == id {
                assert(self@.witnesses[i as int].derived.address == id);
                return true;
            }
            i = i + 1;
        }
        false
    }

    /// Says whether the root declares the account authorized.
    fn declared(&self, id: AccountId) -> (declared: bool)
        ensures
            declared == self@.declares(id),
    {
        if contains_id(&self.signers, id) {
            return true;
        }
        let mut i: usize = 0;
        while i < self.witnesses.len()
            invariant
                i <= self.witnesses@.len(),
                forall|j: int|
                    0 <= j < i ==> !((#[trigger] self.witnesses@[j]).derived.address == id
                        && self.witnesses@[j]@.shows_credential()),
            decreases self.witnesses.len() - i,
        {
            if self.witnesses[i].derived.address == id && self.witnesses[i].has_credential() {
                assert(self@.witnesses[i as int].derived.address == id);
                return true;
            }
            i = i + 1;
        }
        false
    }

    fn is_unsettled(&self, position: Position) -> (unsettled: bool)
        ensures
            unsettled == self@.unsettled(position),
    {
        position.namespace.is_some() && !contains_position(&self.covered, position)
            && !self.private_account(position.account_id)
    }

    fn find_unsettled(&self, positions: &Vec<Position>) -> (found: Option<Position>)
        ensures
            found == self@.first_unsettled(positions@),
    {
        let mut i: usize = 0;
        assert(positions@.skip(0) =~= positions@);
        while i < positions.len()
            invariant
                i <= positions@.len(),
                self@.first_unsettled(positions@) == self@.first_unsettled(
                    positions@.skip(i as int),
                ),
            decreases positions.len() - i,
        {
            let position = positions[i];
            assert(positions@.skip(i as int).first() == position);
            assert(positions@.skip(i as int).drop_first() =~= positions@.skip(i + 1));
            if self.is_unsettled(position) {
                return Some(position);
            }
            i = i + 1;
        }
        None
    }

    /// The states at `positions`, as the program of a call is handed them.
    fn inputs(&self, positions: &Vec<Position>, granted: &Vec<AccountId>) -> (inputs: Vec<Input>)
        ensures
            inputs_view(inputs@) == positions@.map_values(
                |position: Position| self@.input_at(granted@, position),
            ),
    {
        let mut inputs: Vec<Input> = Vec::new();
        let mut i: usize = 0;
        while i < positions.len()
            invariant
                i <= positions@.len(),
                inputs@.len() == i,
                forall|j: int|
                    0 <= j < i ==> (#[trigger] inputs@[j])@ == self@.input_at(
                        granted@,
                        positions@[j],
                    ),
            decreases positions.len() - i,
        {
            let position = positions[i];
            let id = position.account_id;
            let input = Input {
                account_id: id,
                is_authorized: self.declared(id) || contains_id(granted, id),
                balance: self.current.balance(id),
                namespace: position.namespace,
                data: self.current.shard(position),
            };
            inputs.push(input);
            i = i + 1;
        }
        assert(inputs_view(inputs@) =~= positions@.map_values(
            |position: Position| self@.input_at(granted@, position),
        ));
        inputs
    }

    /// What the traversal waits for.
    pub fn due(&self) -> (due: Due)
        ensures
            due@ == self@.due(),
    {
        if self.failed.is_some() {
            return Due::Failed;
        }
        if self.pending.len() == 0 {
            return Due::Finished;
        }
        let call = &self.pending[self.pending.len() - 1];
        assert(self@.pending.last() == call@);
        match self.find_unsettled(&call.positions) {
            Some(position) => Due::Resolve(position),
            None => Due::Run(
                RunCall {
                    program: call.program,
                    caller: call.caller,
                    pre_states: self.inputs(&call.positions, &call.granted),
                    instruction_data: copy_bytes(&call.instruction_data),
                },
            ),
        }
    }

    /// Takes in what was fetched for the position that is due: a shard, nothing, or an error
    /// that ends the traversal.
    pub fn resolve(&mut self, answer: Result<Option<Data>, LeeError>)
        requires
            old(self)@.due() is Resolve,
        ensures
            answer matches Ok(Some(data)) ==> final(self)@ == old(self)@.resolved(
                old(self)@.due()->Resolve_0,
                Some(data@),
            ),
            answer matches Ok(None) ==> final(self)@ == old(self)@.resolved(
                old(self)@.due()->Resolve_0,
                None,
            ),
            answer matches Err(error) ==> final(self)@ == old(self)@.aborted(error),
    {
        match answer {
            Ok(shard) => {
                let call = &self.pending[self.pending.len() - 1];
                assert(self@.pending.last() == call@);
                if let Some(position) = self.find_unsettled(&call.positions) {
                    if let Some(data) = shard {
                        self.base.set_shard(position, data.clone());
                        self.current.set_shard(position, data);
                    }
                    self.covered.push(position);
                    self.asked = Ghost(self.asked@.push(position));
                }
            },
            Err(error) => {
                self.failed = Some(error);
            },
        }
    }

    /// Ends the traversal because the run that is due failed.
    pub fn abort(&mut self, error: LeeError)
        requires
            old(self)@.due() is Run,
        ensures
            final(self)@ == old(self)@.aborted(error),
    {
        self.failed = Some(error);
    }

    /// Says whether the program may answer this here.
    fn acceptable(&self, program: AccountId, output: &ProgramOutput) -> (applied: Option<World>)
        ensures
            applied is Some <==> self@.accepts(program, output@),
            applied matches Some(world) ==> diffs_applied(self@.current, output@.state_diffs)
                == Some(world@),
    {
        let mut i: usize = 0;
        while i < output.state_diffs.len()
            invariant
                i <= output.state_diffs@.len(),
                forall|j: int|
                    0 <= j < i ==> diff_allowed(
                        self@.current,
                        program,
                        #[trigger] output@.state_diffs[j],
                    ),
            decreases output.state_diffs.len() - i,
        {
            assert(output@.state_diffs[i as int] == output.state_diffs@[i as int]@);
            if !diff_is_allowed(&self.current, program, &output.state_diffs[i]) {
                return None;
            }
            i = i + 1;
        }
        let mut k: usize = 0;
        while k < output.chained_calls.len()
            invariant
                k <= output.chained_calls@.len(),
                forall|j: int|
                    0 <= j < k ==> self@.programs.contains(
                        (#[trigger] output@.chained_calls[j]).program_account_id,
                    ),
            decreases output.chained_calls.len() - k,
        {
            assert(output@.chained_calls[k as int] == output.chained_calls@[k as int]@);
            if !self.dependencies.contains_key(output.chained_calls[k].program_account_id) {
                return None;
            }
            k = k + 1;
        }
        apply_diffs(&self.current, &output.state_diffs)
    }

    /// Takes in the answer of the run that is due, with the public accounts that the seeds of each
    /// chained call derive. The private ones are known by their witnesses.
    pub fn ran(&mut self, output: ProgramOutput, granted: Vec<Vec<AccountId>>)
        requires
            old(self)@.due() is Run,
            granted@.len() == output.chained_calls@.len(),
        ensures
            final(self)@ == old(self)@.ran(
                output@,
                granted@.map_values(|ids: Vec<AccountId>| ids@),
            ),
    {
        let ghost before = self@;
        let ghost grants = granted@.map_values(|ids: Vec<AccountId>| ids@);
        let program = self.pending[self.pending.len() - 1].program;
        assert(before.pending.last() == self.pending@.last()@);
        let current = match self.acceptable(program, &output) {
            Some(current) => current,
            None => {
                self.failed = Some(LeeError::InvalidProgramBehavior);
                return;
            },
        };
        self.current = current;
        let ghost pending_before = self.pending@;
        let call = self.pending.pop().unwrap();
        cover_each(&mut self.covered, &call.positions);
        let ProgramOutput { state_diffs, chained_calls, validity_window, .. } = output;
        let mut positions: Vec<Position> = Vec::new();
        let mut i: usize = 0;
        while i < state_diffs.len()
            invariant
                i <= state_diffs@.len(),
                positions@.len() == i,
                forall|j: int|
                    0 <= j < i ==> #[trigger] positions@[j] == state_diffs@[j]@.pre.position(),
            decreases state_diffs.len() - i,
        {
            positions.push(state_diffs[i].pre.position());
            i = i + 1;
        }
        assert(positions@ =~= reported(diffs_view(state_diffs@)));
        cover_each(&mut self.covered, &positions);
        self.window = self.window.intersect(validity_window);

        let ghost calls = chained_calls@;
        let ghost kept = pending_before.drop_last();
        let ghost wanted = queued(witnesses_view(self.witnesses@), program, calls_view(calls), grants);
        let mut chained_calls = chained_calls;
        let mut granted = granted;
        let mut waiting: Vec<PendingCall> = Vec::new();
        std::mem::swap(&mut waiting, &mut self.pending);
        assert(waiting@ =~= kept);
        while chained_calls.len() > 0
            invariant
                wanted == queued(witnesses_view(self.witnesses@), program, calls_view(calls), grants),
                grants.len() == calls.len(),
                chained_calls@.len() <= calls.len(),
                chained_calls@ == calls.take(chained_calls@.len() as int),
                granted@.len() == chained_calls@.len(),
                forall|j: int|
                    0 <= j < granted@.len() ==> (#[trigger] granted@[j])@ == grants[j],
                waiting@.len() == kept.len() + calls.len() - chained_calls@.len(),
                forall|j: int| 0 <= j < kept.len() ==> waiting@[j] == kept[j],
                forall|j: int|
                    0 <= j < calls.len() - chained_calls@.len() ==> (
                    #[trigger] waiting@[kept.len() + j])@ == wanted[j],
            decreases chained_calls@.len(),
        {
            let ghost index = chained_calls@.len() - 1;
            let call = chained_calls.pop().unwrap();
            let mut ids = granted.pop().unwrap();
            let mut private_ids = granted_by(&self.witnesses, program, &call.pda_seeds);
            ids.append(&mut private_ids);
            assert(call == calls[index]);
            assert(calls_view(calls)[index] == call@);
            let ChainedCall { program_account_id, instruction_data, positions, .. } = call;
            let next = PendingCall {
                program: program_account_id,
                caller: Some(program),
                positions,
                instruction_data,
                granted: ids,
            };
            assert(next@ =~= wanted[calls.len() - 1 - index]);
            waiting.push(next);
        }
        self.pending = waiting;
        proof {
            assert(pending_view(self.pending@) =~= before.pending.drop_last() + wanted) by {
                assert forall|j: int| 0 <= j < self.pending@.len() implies #[trigger] pending_view(
                    self.pending@,
                )[j] == (before.pending.drop_last() + wanted)[j] by {
                    if j >= kept.len() {
                        let k = j - kept.len();
                        assert(self.pending@[kept.len() + k]@ == wanted[k]);
                    } else {
                        assert(self.pending@[j] == kept[j]);
                    }
                }
            }
            assert(self@ =~= before.ran(output@, grants));
        }
    }
}

/// The part of an account that `covered` names.
fn scoped_view(world: &World, covered: &Vec<Position>, id: AccountId) -> (view: AccountView)
    ensures
        view@ == scoped(world@, covered@, id),
{
    let mut shards: IdMap<Data> = IdMap::new();
    let mut i: usize = 0;
    while i < covered.len()
        invariant
            i <= covered@.len(),
            forall|namespace: AccountId| #[trigger]
                shards@.contains_key(namespace) <==> covered@.take(i as int).contains(
                    Position { account_id: id, namespace: Some(namespace) },
                ),
            forall|namespace: AccountId| #[trigger]
                shards@.contains_key(namespace) ==> shards@[namespace]@ == shard_in(
                    world@,
                    Position { account_id: id, namespace: Some(namespace) },
                ),
        decreases covered.len() - i,
    {
        let position = covered[i];
        let ghost before = shards@;
        let ghost seen = covered@.take(i as int);
        if position.account_id == id {
            if let Some(namespace) = position.namespace {
                shards.insert(namespace, world.shard(position));
            }
        }
        proof {
            let now = covered@.take(i + 1);
            assert(now =~= seen.push(position));
            assert forall|namespace: AccountId| #[trigger]
                shards@.contains_key(namespace) <==> now.contains(
                    Position { account_id: id, namespace: Some(namespace) },
                ) by {
                let wanted = Position { account_id: id, namespace: Some(namespace) };
                assert(before.contains_key(namespace) <==> seen.contains(wanted));
                if seen.contains(wanted) {
                    let k = seen.index_of(wanted);
                    assert(now[k] == wanted);
                }
                if position == wanted {
                    assert(now[i as int] == wanted);
                }
                if now.contains(wanted) && position != wanted {
                    let k = now.index_of(wanted);
                    assert(seen[k] == wanted);
                }
            }
        }
        i = i + 1;
    }
    assert(covered@.take(i as int) =~= covered@);
    let view = AccountView { balance: world.balance(id), shards };
    assert(view@.shards =~= scoped(world@, covered@, id).shards);
    view
}

impl Traversal {
    fn touched(&self, id: AccountId) -> (touched: bool)
        ensures
            touched == self@.touches(id),
    {
        let mut i: usize = 0;
        while i < self.covered.len()
            invariant
                i <= self.covered@.len(),
                forall|j: int| 0 <= j < i ==> (#[trigger] self.covered@[j]).account_id != id,
            decreases self.covered.len() - i,
        {
            if self.covered[i].account_id == id {
                assert(self@.covered[i as int].account_id == id);
                return true;
            }
            i = i + 1;
        }
        false
    }

    /// Holds every witness to the circuit's rules.
    fn check_witnesses(&self) -> (rejection: Option<CircuitRejection>)
        ensures
            rejection == self@.rejection(self@.witnesses.len()),
    {
        let mut found: Option<CircuitRejection> = None;
        let mut i: usize = 0;
        while i < self.witnesses.len()
            invariant
                i <= self.witnesses@.len(),
                found == self@.rejection(i as nat),
            decreases self.witnesses.len() - i,
        {
            if found.is_none() {
                let witness = &self.witnesses[i];
                found = witness.check(self.touched(witness.derived.address), self.declared(witness.derived.address));
            }
            i = i + 1;
        }
        found
    }

    /// The public accounts that the transaction touches, each once.
    fn public_accounts(&self) -> (ids: Vec<AccountId>)
        ensures
            ids@ == self@.public_ids(self@.covered.len()),
    {
        let mut ids: Vec<AccountId> = Vec::new();
        let mut i: usize = 0;
        while i < self.covered.len()
            invariant
                i <= self.covered@.len(),
                ids@ == self@.public_ids(i as nat),
            decreases self.covered.len() - i,
        {
            let id = self.covered[i].account_id;
            if !self.private_account(id) && !contains_id(&ids, id) {
                ids.push(id);
            }
            i = i + 1;
        }
        ids
    }

    fn write_journal(&self) -> (journal: Journal)
        ensures
            journal@ == self@.journal(),
    {
        let ids = self.public_accounts();
        let mut public_actions: Vec<PublicAction> = Vec::new();
        let mut i: usize = 0;
        while i < ids.len()
            invariant
                i <= ids@.len(),
                public_actions@.len() == i,
                forall|j: int|
                    0 <= j < i ==> (#[trigger] public_actions@[j])@ == self@.public_action(ids@[j]),
            decreases ids.len() - i,
        {
            let id = ids[i];
            public_actions.push(
                PublicAction {
                    account_id: id,
                    is_authorized: self.declared(id),
                    pre: scoped_view(&self.base, &self.covered, id),
                    post: scoped_view(&self.current, &self.covered, id),
                },
            );
            i = i + 1;
        }
        let mut private_notes: Vec<PrivateNote> = Vec::new();
        let mut k: usize = 0;
        while k < self.witnesses.len()
            invariant
                k <= self.witnesses@.len(),
                private_notes@.len() == k,
                forall|j: int|
                    0 <= j < k ==> (#[trigger] private_notes@[j])@ == self@.private_note(
                        self.witnesses@[j]@,
                    ),
            decreases self.witnesses.len() - k,
        {
            let witness = &self.witnesses[k];
            private_notes.push(
                PrivateNote {
                    kind: witness.note_kind(),
                    view_tag: witness.note_view_tag(),
                    account: self.current.account(witness.derived.address).with_nonce(
                        witness.note_nonce(),
                    ),
                },
            );
            k = k + 1;
        }
        let journal = Journal { public_actions, private_notes, validity_window: self.window };
        assert(journal@.public_actions =~= self@.journal().public_actions);
        assert(journal@.private_notes =~= self@.journal().private_notes);
        journal
    }

    /// What the transaction comes to, once nothing is due any more.
    pub fn finish(self) -> (r: Result<Journal, LeeError>)
        requires
            self@.due() is Failed || self@.due() is Finished,
        ensures
            match self@.outcome() {
                Ok(journal) => r matches Ok(written) && written@ == journal,
                Err(error) => r matches Err(reason) && reason == error,
            },
    {
        if let Some(error) = self.failed {
            return Err(error);
        }
        if let Some(rejection) = self.check_witnesses() {
            return Err(LeeError::CircuitProvingError(rejection));
        }
        if self.window.is_empty() {
            return Err(LeeError::CircuitProvingError(CircuitRejection::EmptyValidityWindow));
        }
        Ok(self.write_journal())
    }
}

} // verus!
