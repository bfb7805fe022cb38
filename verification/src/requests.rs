//! Ready-made transactions: forwarding a write, and spending a program-derived account.
use crate::account::{Account, AccountModel, World};
use crate::codec::le_bytes;
use crate::id_map::IdMap;
use crate::instruction::{forward_to, forwarded_write, spend_instruction};
use crate::model::ProvingInputModel;
use crate::position::{AccountId, Position};
use crate::program::{InstructionData, PdaSeed, Program, ProgramWithDependencies};
use crate::traversal::ProvingInput;
use crate::witness::{
    Derived, Key, MembershipProof, NullifierModel, NullifierWitness, PrivateWitness, WitnessKind,
    WitnessModel,
};
use vstd::prelude::*;

verus! {

/// The forwarder at its own address, which may reach `callee` at its own address; the two
/// addresses come along.
pub open spec fn reaches_callee(
    fixture: (ProgramWithDependencies, AccountId, AccountId),
    forwarder: Program,
    callee: Program,
) -> bool {
    &&& fixture.0.program == forwarder
    &&& fixture.0.account_id == forwarder.id
    &&& fixture.0.dependencies@ == Map::empty().insert(callee.id, callee)
    &&& fixture.1 == forwarder.id
    &&& fixture.2 == callee.id
}

/// The forwarder at its own address, which may reach itself; the address comes along.
pub open spec fn reaches_itself(
    fixture: (ProgramWithDependencies, AccountId),
    forwarder: Program,
) -> bool {
    &&& fixture.0.program.id == forwarder.id
    &&& fixture.0.program.elf@ == forwarder.elf@
    &&& fixture.0.account_id == forwarder.id
    &&& fixture.0.dependencies@ == Map::empty().insert(forwarder.id, forwarder)
    &&& fixture.1 == forwarder.id
}

/// However it is set up, a forwarder is at one address, and that address is the callee's only
/// where the two programs share one.
pub proof fn law_forwarder_is_at_one_address(
    over_itself: (ProgramWithDependencies, AccountId),
    over_callee: (ProgramWithDependencies, AccountId, AccountId),
    forwarder: Program,
    callee: Program,
)
    requires
        reaches_itself(over_itself, forwarder),
        reaches_callee(over_callee, forwarder, callee),
    ensures
        over_itself.1 == over_callee.1,
        over_itself.0.account_id == over_callee.0.account_id,
        over_itself.1 != over_callee.2 <==> forwarder.id != callee.id,
{
}

/// The forwarder at its own address, with `callee` at its own address to forward to. The
/// forwarder reads `(account, forwarder)`; the callee opens `(account, callee)`, which a
/// transaction that names the forwarder's namespace does not carry.
pub fn forwarder_over_callee(forwarder: Program, callee: Program) -> (r: (
    ProgramWithDependencies,
    AccountId,
    AccountId,
))
    ensures
        reaches_callee(r, forwarder, callee),
        r.0.program == forwarder,
        r.0.account_id == forwarder.id,
        r.0.dependencies@ == Map::empty().insert(callee.id, callee),
        r.1 == forwarder.id,
        r.2 == callee.id,
{
    let forwarder_id = forwarder.id;
    let callee_id = callee.id;
    let mut dependencies: IdMap<Program> = IdMap::new();
    dependencies.insert(callee_id, callee);
    (ProgramWithDependencies::new(forwarder, forwarder_id, dependencies), forwarder_id, callee_id)
}

/// The forwarder with itself to forward to, so that a call can come back to the position that
/// the transaction names.
pub fn forwarder_over_itself(forwarder: Program) -> (r: (ProgramWithDependencies, AccountId))
    ensures
        reaches_itself(r, forwarder),
        r.0.account_id == forwarder.id,
        r.0.program.id == forwarder.id,
        r.0.program.elf@ == forwarder.elf@,
        r.0.dependencies@ == Map::empty().insert(forwarder.id, forwarder),
        r.1 == forwarder.id,
{
    let forwarder_id = forwarder.id;
    let root = forwarder.clone();
    let mut dependencies: IdMap<Program> = IdMap::new();
    dependencies.insert(forwarder_id, forwarder);
    (ProgramWithDependencies::new(root, forwarder_id, dependencies), forwarder_id)
}

/// A transaction that names the forwarder's shard at one public account.
pub fn input_with(
    account_id: AccountId,
    forwarder_id: AccountId,
    account: Account,
    instruction_data: InstructionData,
) -> (input: ProvingInput)
    ensures
        input@.positions == seq![
            Position { account_id, namespace: Some(forwarder_id) },
        ],
        input@.signers == Seq::<AccountId>::empty(),
        input@.public_accounts == Map::empty().insert(account_id, account@),
        input@.private_witnesses == Seq::<WitnessModel>::empty(),
        input@.instruction_data == instruction_data@,
{
    let mut positions: Vec<Position> = Vec::new();
    positions.push(Position::new(account_id, forwarder_id));
    let mut public_accounts = World::new();
    public_accounts.insert(account_id, account);
    let input = ProvingInput {
        positions,
        signers: Vec::new(),
        public_accounts,
        private_witnesses: Vec::new(),
        instruction_data,
    };
    assert(input@.positions =~= seq![Position { account_id, namespace: Some(forwarder_id) }]);
    assert(input@.private_witnesses =~= Seq::<WitnessModel>::empty());
    input
}

/// A transaction that has the forwarder forward one write to the callee.
pub fn forwarding_input(
    account_id: AccountId,
    forwarder_id: AccountId,
    callee_id: AccountId,
    account: Account,
    write: &[u8],
) -> (input: ProvingInput)
    requires
        write@.len() + 4 <= u32::MAX,
    ensures
        input@.positions == seq![
            Position { account_id, namespace: Some(forwarder_id) },
        ],
        input@.signers == Seq::<AccountId>::empty(),
        input@.public_accounts == Map::empty().insert(account_id, account@),
        input@.private_witnesses == Seq::<WitnessModel>::empty(),
        input@.instruction_data == forwarded_write(account_id, callee_id, write@).encoded(),
{
    input_with(account_id, forwarder_id, account, forward_to(account_id, callee_id, write))
}

/// A private account that holds one unit, beside the id and the membership proof that are given
/// for it.
pub fn seeded_regular_account(account_id: AccountId, proof: MembershipProof) -> (r: (
    AccountId,
    Account,
    MembershipProof,
))
    ensures
        r.0 == account_id,
        r.1@ == (AccountModel { balance: 1, ..AccountModel::untouched() }),
        r.2 == proof,
{
    (account_id, Account::with_balance(1), proof)
}

/// An account that holds one unit and nothing else.
pub open spec fn one_unit() -> AccountModel {
    AccountModel { balance: 1, ..AccountModel::untouched() }
}

/// A transaction that spends one unit of `pda_id`, derived from `seed`, for `recipient_id`, and
/// that opens a private account with `witness`.
pub open spec fn derived_spend(
    transfer_id: AccountId,
    seed: PdaSeed,
    pda_id: AccountId,
    recipient_id: AccountId,
    witness: WitnessModel,
    declare_authorized: bool,
) -> ProvingInputModel {
    ProvingInputModel {
        positions: seq![
            Position { account_id: pda_id, namespace: None },
            Position { account_id: recipient_id, namespace: None },
        ],
        signers: if declare_authorized {
            seq![recipient_id, pda_id]
        } else {
            seq![recipient_id]
        },
        public_accounts: Map::empty().insert(pda_id, one_unit()).insert(
            recipient_id,
            AccountModel::untouched(),
        ),
        private_witnesses: seq![witness],
        instruction_data: seed.value@ + le_bytes(1, 16) + transfer_id.value@,
    }
}

/// An attempt to spend one unit of a program-derived account at the root of a transaction,
/// where `program` derives the account from `seed` and spends it through `simple_transfer`.
///
/// `pda_id` is the account that is spent. `derived` is what `witness_identifier` derives, with the
/// account that the witness opens: another one where the witness was made for another identifier.
/// The witness updates a committed state, which `nsk` and `membership_proof` are for. The spent
/// account is supplied as a public one too, for the case where the witness opens another. With
/// `declare_authorized` the transaction claims that the account signed it.
pub fn pda_update_attempt(
    program: Program,
    simple_transfer: Program,
    seed: PdaSeed,
    pda_id: AccountId,
    witness_identifier: u128,
    derived: Derived,
    view_tag: u8,
    nsk: Key,
    membership_proof: MembershipProof,
    declare_authorized: bool,
) -> (r: (ProvingInput, ProgramWithDependencies))
    ensures
        ({
            let (input, reach) = r;
            let recipient_id = input@.positions[1].account_id;
            &&& recipient_id.value@ == Seq::new(32, |i: int| 0u8)
            &&& input@ == derived_spend(
                simple_transfer.id,
                seed,
                pda_id,
                recipient_id,
                WitnessModel {
                    account: one_unit(),
                    identifier: witness_identifier,
                    kind: WitnessKind::Pda { program: program.id, seed },
                    nullifier: NullifierModel::Update {
                        view_tag,
                        nsk,
                        index: membership_proof.index,
                        path: membership_proof.path@,
                    },
                    derived,
                },
                declare_authorized,
            )
            &&& reach.program == program
            &&& reach.account_id == program.id
            &&& reach.dependencies@ == Map::empty().insert(simple_transfer.id, simple_transfer)
        }),
{
    let program_id = program.id;
    let transfer_id = simple_transfer.id;
    let recipient_id = AccountId::new([0u8; 32]);

    let mut signers: Vec<AccountId> = Vec::new();
    signers.push(recipient_id);
    if declare_authorized {
        signers.push(pda_id);
    }
    let mut positions: Vec<Position> = Vec::new();
    positions.push(Position::balance_only(pda_id));
    positions.push(Position::balance_only(recipient_id));
    let mut public_accounts = World::new();
    public_accounts.insert(pda_id, Account::with_balance(1));
    public_accounts.insert(recipient_id, Account::default());
    let mut private_witnesses: Vec<PrivateWitness> = Vec::new();
    private_witnesses.push(
        PrivateWitness {
            account: Account::with_balance(1),
            identifier: witness_identifier,
            kind: WitnessKind::Pda { program: program_id, seed },
            nullifier: NullifierWitness::Update { view_tag, nsk, membership_proof },
            derived,
        },
    );
    let input = ProvingInput {
        positions,
        signers,
        public_accounts,
        private_witnesses,
        instruction_data: spend_instruction(seed, 1, transfer_id),
    };
    let mut dependencies: IdMap<Program> = IdMap::new();
    dependencies.insert(transfer_id, simple_transfer);
    proof {
        assert(recipient_id.value@ =~= Seq::new(32, |i: int| 0u8));
        let witness = input.private_witnesses@[0]@;
        let wanted = derived_spend(
            transfer_id,
            seed,
            pda_id,
            recipient_id,
            witness,
            declare_authorized,
        );
        assert(input@.positions =~= wanted.positions);
        assert(input@.signers =~= wanted.signers);
        assert(input@.private_witnesses =~= wanted.private_witnesses);
        assert(input@ =~= wanted);
    }
    (input, ProgramWithDependencies::new(program, program_id, dependencies))
}

} // verus!
