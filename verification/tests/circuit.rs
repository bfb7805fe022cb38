use lee_traversal::account::{Account, AccountView, Nonce, World};
use lee_traversal::data::Data;
use lee_traversal::error::{CircuitRejection, LeeError};
use lee_traversal::id_map::IdMap;
use lee_traversal::output::{NewNullifier, PrivacyPreservingCircuitOutput, SealedNote};
use lee_traversal::position::{AccountId, Position};
use lee_traversal::program::{
    BalanceDiff, ChainedCall, PdaSeed, Program, ProgramOutput, ProgramWithDependencies,
    ShardStateDiff, ValidityWindow,
};
use lee_traversal::requests;
use lee_traversal::traversal::{Due, Journal, PrivateNote, ProvingInput, RunCall, Traversal};
use lee_traversal::witness::{
    granted_by, Credential, Derived, Key, MembershipProof, NullifierWitness, PrivateAccountKind,
    PrivateWitness, WitnessKind,
};

const NOOP: [u8; 32] = [0xA0; 32];
const AUTH_ASSERTING_NOOP: [u8; 32] = [0xA1; 32];
const SIMPLE_BALANCE_TRANSFER: [u8; 32] = [0xA2; 32];
const SIMPLE_TRANSFER_PROXY: [u8; 32] = [0xA3; 32];
const PDA_SPEND_PROXY: [u8; 32] = [0xA4; 32];
const VALIDITY_WINDOW: [u8; 32] = [0xA5; 32];
const VALIDITY_WINDOW_CHAIN_CALLER: [u8; 32] = [0xA6; 32];

const DUMMY_COMMITMENT_HASH: Key = Key { value: [0xDD; 32] };

fn program(id: [u8; 32]) -> Program {
    Program { id: AccountId::new(id), elf: vec![id[0]] }
}

fn alone(id: [u8; 32]) -> ProgramWithDependencies {
    ProgramWithDependencies::new(program(id), AccountId::new(id), IdMap::new())
}

fn with_dependency(id: [u8; 32], dependency: [u8; 32]) -> ProgramWithDependencies {
    let mut dependencies: IdMap<Program> = IdMap::new();
    dependencies.insert(AccountId::new(dependency), program(dependency));
    ProgramWithDependencies::new(program(id), AccountId::new(id), dependencies)
}

// Stand-ins for the key scheme: each derivation is some injective enough function of what it
// derives from.
#[derive(Clone, Copy)]
struct Keys {
    nsk: Key,
    npk: Key,
}

impl Keys {
    fn ask(&self) -> Credential {
        Credential { nsk: self.nsk, npk: self.npk }
    }
}

fn test_private_account_keys_1() -> Keys {
    Keys { nsk: Key { value: [11; 32] }, npk: Key { value: [12; 32] } }
}

fn test_private_account_keys_2() -> Keys {
    Keys { nsk: Key { value: [21; 32] }, npk: Key { value: [22; 32] } }
}

fn for_regular_private_account(npk: &Key, identifier: u128) -> AccountId {
    let mut value = npk.value;
    value[..16].copy_from_slice(&identifier.to_le_bytes());
    AccountId::new(value)
}

fn for_private_pda(program: AccountId, seed: PdaSeed, npk: &Key, identifier: u128) -> AccountId {
    let mut value = for_regular_private_account(npk, identifier).value;
    for (i, byte) in value.iter_mut().enumerate().skip(16) {
        *byte ^= program.value[i].wrapping_add(seed.value[i]);
    }
    AccountId::new(value)
}

fn compute_view_tag(npk: &Key) -> u8 {
    npk.value[0].wrapping_mul(3)
}

fn nonce_init(id: &AccountId) -> Nonce {
    Nonce(1_000 + u128::from(id.value[16]))
}

fn nonce_increment(nonce: Nonce, nsk: &Key) -> Nonce {
    Nonce(nonce.0 + u128::from(nsk.value[0]))
}

fn digest(parts: &[&[u8]]) -> Key {
    let mut value = [0x5A_u8; 32];
    let mut at = 0;
    for part in parts {
        for byte in *part {
            value[at % 32] = value[at % 32].wrapping_mul(31).wrapping_add(*byte);
            at += 1;
        }
    }
    Key { value }
}

fn commitment(id: &AccountId, account: &Account) -> Key {
    digest(&[&id.value, &account.balance.to_le_bytes(), &account.nonce.0.to_le_bytes()])
}

fn nullifier_of_update(commitment: &Key, nsk: &Key) -> Key {
    digest(&[&commitment.value, &nsk.value])
}

fn nullifier_of_init(id: &AccountId) -> Key {
    digest(&[&id.value])
}

fn proof_for(commitment: &Key) -> MembershipProof {
    MembershipProof { index: 0, path: vec![*commitment] }
}

fn root_of(proof: &MembershipProof) -> Key {
    digest(&[&proof.path[0].value])
}

// A new account is opened without the key that advances its nonce.
fn derived_for_init(keys: &Keys, address: AccountId) -> Derived {
    Derived {
        address,
        view_tag: compute_view_tag(&keys.npk),
        init_nonce: nonce_init(&address),
        advanced_nonce: Nonce(0),
    }
}

fn derived_for_update(keys: &Keys, address: AccountId, nonce: Nonce) -> Derived {
    Derived {
        address,
        view_tag: compute_view_tag(&keys.npk),
        init_nonce: nonce_init(&address),
        advanced_nonce: nonce_increment(nonce, &keys.nsk),
    }
}

fn init_witness(keys: &Keys, identifier: u128, account: Account) -> PrivateWitness {
    PrivateWitness {
        account,
        identifier,
        kind: WitnessKind::Regular { ask: Some(keys.ask()) },
        nullifier: NullifierWitness::Init {
            npk: keys.npk,
            commitment_root: DUMMY_COMMITMENT_HASH,
        },
        derived: derived_for_init(keys, for_regular_private_account(&keys.npk, identifier)),
    }
}

fn update_witness(
    keys: &Keys,
    identifier: u128,
    account: Account,
    membership_proof: MembershipProof,
) -> PrivateWitness {
    let address = for_regular_private_account(&keys.npk, identifier);
    let derived = derived_for_update(keys, address, account.nonce);
    PrivateWitness {
        account,
        identifier,
        kind: WitnessKind::Regular { ask: Some(keys.ask()) },
        nullifier: NullifierWitness::Update { view_tag: 0, nsk: keys.nsk, membership_proof },
        derived,
    }
}

fn init_pda_witness(
    keys: &Keys,
    identifier: u128,
    (program, seed): (AccountId, PdaSeed),
    account: Account,
) -> PrivateWitness {
    PrivateWitness {
        account,
        identifier,
        kind: WitnessKind::Pda { program, seed },
        nullifier: NullifierWitness::Init {
            npk: keys.npk,
            commitment_root: DUMMY_COMMITMENT_HASH,
        },
        derived: derived_for_init(keys, for_private_pda(program, seed, &keys.npk, identifier)),
    }
}

fn world(accounts: Vec<(AccountId, Account)>) -> World {
    let mut world = World::new();
    for (id, account) in accounts {
        world.insert(id, account);
    }
    world
}

fn unit_input(positions: Vec<Position>, private_witnesses: Vec<PrivateWitness>) -> ProvingInput {
    ProvingInput {
        positions,
        signers: vec![],
        public_accounts: World::new(),
        private_witnesses,
        instruction_data: vec![],
    }
}

fn failed(reason: &str) -> LeeError {
    LeeError::ProgramProveFailed(reason.to_owned())
}

fn unchanged(call: &RunCall) -> Vec<ShardStateDiff> {
    call.pre_states.iter().cloned().map(ShardStateDiff::unchanged).collect()
}

fn positions(call: &RunCall) -> Vec<Position> {
    call.pre_states.iter().map(|input| input.position()).collect()
}

fn answer(call: RunCall, diffs: Vec<ShardStateDiff>) -> ProgramOutput {
    ProgramOutput::new(call.program, call.caller, call.instruction_data, diffs)
}

// Moves an amount from the first position to the second; at one position it only looks.
fn simple_balance_transfer(call: RunCall) -> Result<ProgramOutput, LeeError> {
    let amount: u128 =
        borsh::from_slice(&call.instruction_data).map_err(|e| failed(&format!("{e}")))?;
    if call.pre_states.len() == 1 {
        let diffs = unchanged(&call);
        return Ok(answer(call, diffs));
    }
    let [from, to] = <[_; 2]>::try_from(call.pre_states.clone())
        .map_err(|_| failed("two positions expected"))?;
    let diffs = vec![
        ShardStateDiff::new(from, BalanceDiff::Sub(amount), Data::empty()),
        ShardStateDiff::new(to, BalanceDiff::Add(amount), Data::empty()),
    ];
    Ok(answer(call, diffs))
}

// Calls the transfer program on the positions it was handed, under its own seed.
fn transfer_under_seed(
    call: RunCall,
    seed: PdaSeed,
    transfer_id: AccountId,
    amount: u128,
) -> ProgramOutput {
    let chained = ChainedCall {
        program_account_id: transfer_id,
        instruction_data: borsh::to_vec(&amount).unwrap(),
        positions: positions(&call),
        pda_seeds: vec![seed],
    };
    let diffs = unchanged(&call);
    answer(call, diffs).with_chained_calls(vec![chained])
}

fn simple_transfer_proxy(call: RunCall) -> Result<ProgramOutput, LeeError> {
    let (seed, auth_id, amount, is_withdraw): ([u8; 32], [u8; 32], u128, bool) =
        borsh::from_slice(&call.instruction_data).map_err(|e| failed(&format!("{e}")))?;
    if call.pre_states.len() != if is_withdraw { 2 } else { 1 } {
        return Err(failed("wrong number of positions"));
    }
    Ok(transfer_under_seed(call, PdaSeed::new(seed), AccountId::new(auth_id), amount))
}

fn pda_spend_proxy(call: RunCall) -> Result<ProgramOutput, LeeError> {
    let (seed, amount, transfer_id): ([u8; 32], u128, [u8; 32]) =
        borsh::from_slice(&call.instruction_data).map_err(|e| failed(&format!("{e}")))?;
    Ok(transfer_under_seed(call, PdaSeed::new(seed), AccountId::new(transfer_id), amount))
}

fn validity_window(call: RunCall) -> Result<ProgramOutput, LeeError> {
    let (from, to): (Option<u64>, Option<u64>) =
        borsh::from_slice(&call.instruction_data).map_err(|e| failed(&format!("{e}")))?;
    let diffs = unchanged(&call);
    Ok(answer(call, diffs).with_validity_window(ValidityWindow { from, to }))
}

fn validity_window_chain_caller(call: RunCall) -> Result<ProgramOutput, LeeError> {
    let (from, to, callee, callee_from, callee_to): (
        Option<u64>,
        Option<u64>,
        [u8; 32],
        Option<u64>,
        Option<u64>,
    ) = borsh::from_slice(&call.instruction_data).map_err(|e| failed(&format!("{e}")))?;
    let chained = ChainedCall {
        program_account_id: AccountId::new(callee),
        instruction_data: borsh::to_vec(&(callee_from, callee_to)).unwrap(),
        positions: positions(&call),
        pda_seeds: vec![],
    };
    let diffs = unchanged(&call);
    Ok(answer(call, diffs)
        .with_chained_calls(vec![chained])
        .with_validity_window(ValidityWindow { from, to }))
}

fn run_program(call: RunCall) -> Result<ProgramOutput, LeeError> {
    match call.program.value {
        NOOP => {
            let diffs = unchanged(&call);
            Ok(answer(call, diffs))
        }
        AUTH_ASSERTING_NOOP => {
            if call.pre_states.iter().any(|input| !input.is_authorized) {
                return Err(failed("unauthorized"));
            }
            let diffs = unchanged(&call);
            Ok(answer(call, diffs))
        }
        SIMPLE_BALANCE_TRANSFER => simple_balance_transfer(call),
        SIMPLE_TRANSFER_PROXY => simple_transfer_proxy(call),
        PDA_SPEND_PROXY => pda_spend_proxy(call),
        VALIDITY_WINDOW => validity_window(call),
        VALIDITY_WINDOW_CHAIN_CALLER => validity_window_chain_caller(call),
        _ => Err(failed("unknown program")),
    }
}

// What sealing needs of a witness once the transaction is over.
struct Sealing {
    address: AccountId,
    pre_commitment: Key,
    nsk: Option<Key>,
    root: Key,
}

fn sealing(witness: &PrivateWitness) -> Sealing {
    let address = witness.derived.address;
    let (nsk, root) = match &witness.nullifier {
        NullifierWitness::Init { commitment_root, .. } => (None, *commitment_root),
        NullifierWitness::Update { nsk, membership_proof, .. } => {
            (Some(*nsk), root_of(membership_proof))
        }
    };
    Sealing { address, pre_commitment: commitment(&address, &witness.account), nsk, root }
}

fn shared_secret(address: &AccountId, nonce: Nonce) -> Key {
    digest(&[&address.value, &nonce.0.to_le_bytes()])
}

fn keyed_stream(text: &[u8], secret: &Key, nullifier: &Key) -> Vec<u8> {
    text.iter()
        .enumerate()
        .map(|(i, byte)| byte ^ secret.value[i % 32] ^ nullifier.value[(i + 7) % 32])
        .collect()
}

type Plain = (u8, [u8; 32], [u8; 32], u128, u128, u128);

fn plain(kind: PrivateAccountKind, account: &Account) -> Plain {
    let (balance, nonce) = (account.balance, account.nonce.0);
    match kind {
        PrivateAccountKind::Regular(identifier) => {
            (0, [0; 32], [0; 32], identifier, balance, nonce)
        }
        PrivateAccountKind::Pda { account_id, seed, identifier } => {
            (1, account_id.value, seed.value, identifier, balance, nonce)
        }
    }
}

fn seal_note(note: &PrivateNote, with: &Sealing) -> SealedNote {
    let nullifier = match &with.nsk {
        Some(nsk) => nullifier_of_update(&with.pre_commitment, nsk),
        None => nullifier_of_init(&with.address),
    };
    let text = borsh::to_vec(&plain(note.kind, &note.account)).unwrap();
    SealedNote {
        nullifier,
        commitment_root: with.root,
        commitment: commitment(&with.address, &note.account),
        ciphertext: keyed_stream(
            &text,
            &shared_secret(&with.address, note.account.nonce),
            &nullifier,
        ),
    }
}

fn decrypt(
    output: &PrivacyPreservingCircuitOutput,
    secret: &Key,
    index: usize,
) -> (PrivateAccountKind, Account) {
    let (ciphertext, nullifier) = output.sealed_post_state(index);
    let text = keyed_stream(ciphertext, secret, &nullifier);
    let (tag, program, seed, identifier, balance, nonce): Plain =
        borsh::from_slice(&text).unwrap();
    let mut account = Account::with_balance(balance);
    account.nonce = Nonce(nonce);
    let kind = if tag == 0 {
        PrivateAccountKind::Regular(identifier)
    } else {
        PrivateAccountKind::Pda {
            account_id: AccountId::new(program),
            seed: PdaSeed::new(seed),
            identifier,
        }
    };
    (kind, account)
}

fn decrypt_kind(
    output: &PrivacyPreservingCircuitOutput,
    secret: &Key,
    index: usize,
) -> PrivateAccountKind {
    decrypt(output, secret, index).0
}

fn execute(input: ProvingInput, program: ProgramWithDependencies) -> Result<Journal, LeeError> {
    let mut traversal = Traversal::start(input, program);
    loop {
        match traversal.due() {
            Due::Resolve(_) => traversal.resolve(Ok(None)),
            // No seed of these programs derives a public account.
            Due::Run(call) => match run_program(call) {
                Ok(output) => {
                    let granted = output.chained_calls.iter().map(|_| vec![]).collect();
                    traversal.ran(output, granted);
                }
                Err(error) => traversal.abort(error),
            },
            Due::Failed | Due::Finished => return traversal.finish(),
        }
    }
}

fn execute_and_seal(
    input: ProvingInput,
    program: ProgramWithDependencies,
) -> Result<PrivacyPreservingCircuitOutput, LeeError> {
    let with: Vec<Sealing> = input.private_witnesses.iter().map(sealing).collect();
    let journal = execute(input, program)?;
    let sealed: Vec<SealedNote> = journal
        .private_notes
        .iter()
        .zip(&with)
        .map(|(note, with)| seal_note(note, with))
        .collect();
    Ok(PrivacyPreservingCircuitOutput::seal(journal, &sealed))
}

fn rejection(result: Result<PrivacyPreservingCircuitOutput, LeeError>) -> CircuitRejection {
    match result {
        Err(LeeError::CircuitProvingError(rejection)) => rejection,
        other => panic!("the circuit must reject: {other:?}"),
    }
}

#[test]
fn prove_privacy_preserving_execution_circuit_public_and_private_pre_accounts() {
    let recipient_keys = test_private_account_keys_1();
    let sender_id = AccountId::new([0; 32]);
    let sender_account = Account { balance: 100, ..Account::default() };
    let recipient_account_id = for_regular_private_account(&recipient_keys.npk, 0);
    let balance_to_move: u128 = 37;

    let expected_sender_pre = AccountView { balance: 100, ..AccountView::default() };
    let expected_sender_post =
        AccountView { balance: 100 - balance_to_move, ..AccountView::default() };
    let expected_recipient_post = Account {
        balance: balance_to_move,
        nonce: nonce_init(&recipient_account_id),
        ..Account::default()
    };
    let secret = shared_secret(&recipient_account_id, nonce_init(&recipient_account_id));

    let output = execute_and_seal(
        ProvingInput {
            positions: vec![
                Position::balance_only(sender_id),
                Position::balance_only(recipient_account_id),
            ],
            signers: vec![sender_id],
            public_accounts: world(vec![(sender_id, sender_account)]),
            private_witnesses: vec![init_witness(&recipient_keys, 0, Account::default())],
            instruction_data: borsh::to_vec(&balance_to_move).unwrap(),
        },
        alone(SIMPLE_BALANCE_TRANSFER),
    )
    .unwrap();

    let (_kind, recipient_post) = decrypt(&output, &secret, 0);
    assert_eq!(recipient_post, expected_recipient_post);
    assert_eq!(output.private_actions.len(), 1);

    let [action] = <[_; 1]>::try_from(output.public_actions).unwrap();
    assert_eq!(action.account_id, sender_id);
    assert!(action.is_authorized);
    assert_eq!(action.pre, expected_sender_pre);
    assert_eq!(action.post, expected_sender_post);
}

#[test]
fn prove_privacy_preserving_execution_circuit_fully_private() {
    let sender_keys = test_private_account_keys_1();
    let recipient_keys = test_private_account_keys_2();

    let sender_nonce = Nonce(0xdead_beef);
    let sender_account_id = for_regular_private_account(&sender_keys.npk, 0);
    let sender_pre_account =
        Account { balance: 100, nonce: sender_nonce, ..Account::default() };
    let commitment_sender = commitment(&sender_account_id, &sender_pre_account);
    let recipient_account_id = for_regular_private_account(&recipient_keys.npk, 0);
    let balance_to_move: u128 = 37;
    let proof = proof_for(&commitment_sender);

    let expected_new_nullifiers = vec![
        NewNullifier {
            nullifier: nullifier_of_update(&commitment_sender, &sender_keys.nsk),
            commitment_root: root_of(&proof),
        },
        NewNullifier {
            nullifier: nullifier_of_init(&recipient_account_id),
            commitment_root: DUMMY_COMMITMENT_HASH,
        },
    ];
    let expected_private_account_1 = Account {
        balance: 100 - balance_to_move,
        nonce: nonce_increment(sender_nonce, &sender_keys.nsk),
        ..Account::default()
    };
    let expected_private_account_2 = Account {
        balance: balance_to_move,
        nonce: nonce_init(&recipient_account_id),
        ..Account::default()
    };
    let expected_new_commitments = vec![
        commitment(&sender_account_id, &expected_private_account_1),
        commitment(&recipient_account_id, &expected_private_account_2),
    ];
    let shared_secret_1 =
        shared_secret(&sender_account_id, nonce_increment(sender_nonce, &sender_keys.nsk));
    let shared_secret_2 =
        shared_secret(&recipient_account_id, nonce_init(&recipient_account_id));

    let output = execute_and_seal(
        ProvingInput {
            instruction_data: borsh::to_vec(&balance_to_move).unwrap(),
            ..unit_input(
                vec![
                    Position::balance_only(sender_account_id),
                    Position::balance_only(recipient_account_id),
                ],
                vec![
                    update_witness(&sender_keys, 0, sender_pre_account, proof),
                    init_witness(&recipient_keys, 0, Account::default()),
                ],
            )
        },
        alone(SIMPLE_BALANCE_TRANSFER),
    )
    .unwrap();

    assert!(output.public_actions.is_empty());
    let sender_nullifier = expected_new_nullifiers[0].nullifier;
    let recipient_nullifier = expected_new_nullifiers[1].nullifier;

    let mut sorted_commitments = expected_new_commitments;
    sorted_commitments.sort_unstable_by_key(|commitment| commitment.value);
    assert_eq!(output.commitments(), sorted_commitments);

    let mut sorted_nullifiers = expected_new_nullifiers;
    sorted_nullifiers.sort_unstable_by_key(|entry| entry.nullifier.value);
    assert_eq!(output.nullifiers(), sorted_nullifiers);

    assert_eq!(output.private_actions.len(), 2);

    let sender_slot = output
        .private_actions
        .iter()
        .position(|action| action.nullifier == sender_nullifier)
        .unwrap();
    let (_kind, sender_post) = decrypt(&output, &shared_secret_1, sender_slot);
    assert_eq!(sender_post, expected_private_account_1);

    let recipient_slot = output
        .private_actions
        .iter()
        .position(|action| action.nullifier == recipient_nullifier)
        .unwrap();
    let (_kind, recipient_post) = decrypt(&output, &shared_secret_2, recipient_slot);
    assert_eq!(recipient_post, expected_private_account_2);
}

#[test]
fn init_note_view_tag_is_derived_from_account_keys() {
    let keys = test_private_account_keys_1();
    let identifier: u128 = 0;
    let account_id = for_regular_private_account(&keys.npk, identifier);

    let output = execute_and_seal(
        unit_input(
            vec![Position::balance_only(account_id)],
            vec![init_witness(&keys, identifier, Account::default())],
        ),
        alone(NOOP),
    )
    .unwrap();

    assert_eq!(output.private_actions.len(), 1);
    assert_eq!(
        output.private_actions[0].encrypted_post_state.view_tag,
        compute_view_tag(&keys.npk),
    );
}

#[test]
fn update_note_view_tag_is_the_supplied_value() {
    let keys = test_private_account_keys_1();
    let identifier: u128 = 99;
    let account_id = for_regular_private_account(&keys.npk, identifier);
    let account = Account { balance: 1, ..Account::default() };
    let membership_proof = proof_for(&commitment(&account_id, &account));

    // A tag deliberately different from the address-derived one, so a passthrough is
    // distinguishable from re-derivation.
    let fed_tag = compute_view_tag(&keys.npk).wrapping_add(1);

    let output = execute_and_seal(
        unit_input(
            vec![Position::balance_only(account_id)],
            vec![PrivateWitness {
                nullifier: NullifierWitness::Update {
                    view_tag: fed_tag,
                    nsk: keys.nsk,
                    membership_proof,
                },
                ..update_witness(&keys, identifier, account, proof_for(&DUMMY_COMMITMENT_HASH))
            }],
        ),
        alone(NOOP),
    )
    .unwrap();

    assert_eq!(output.private_actions.len(), 1);
    assert_eq!(output.private_actions[0].encrypted_post_state.view_tag, fed_tag);
}

fn chained_windows(
    own: (Option<u64>, Option<u64>),
    callee: (Option<u64>, Option<u64>),
) -> Result<Journal, LeeError> {
    let account_keys = test_private_account_keys_1();
    let account_id = for_regular_private_account(&account_keys.npk, 0);
    let instruction =
        borsh::to_vec(&(own.0, own.1, VALIDITY_WINDOW, callee.0, callee.1)).unwrap();
    execute(
        ProvingInput {
            instruction_data: instruction,
            ..unit_input(
                vec![Position::balance_only(account_id)],
                vec![init_witness(&account_keys, 0, Account::default())],
            )
        },
        with_dependency(VALIDITY_WINDOW_CHAIN_CALLER, VALIDITY_WINDOW),
    )
}

#[test]
fn circuit_fails_when_chained_validity_windows_have_empty_intersection() {
    let result =
        chained_windows((Some(1_u64), Some(4_u64)), (Some(4_u64), Some(7_u64)));

    assert!(matches!(result, Err(LeeError::CircuitProvingError(_))));
}

#[test]
fn chained_validity_windows_are_intersected() {
    let journal = chained_windows((Some(1), Some(5)), (Some(4), Some(7))).unwrap();
    assert_eq!(journal.validity_window, ValidityWindow { from: Some(4), to: Some(5) });

    let journal = chained_windows((None, Some(5)), (None, None)).unwrap();
    assert_eq!(journal.validity_window, ValidityWindow { from: None, to: Some(5) });

    let result = chained_windows((Some(1), Some(4)), (Some(4), Some(7)));
    assert!(matches!(
        result,
        Err(LeeError::CircuitProvingError(CircuitRejection::EmptyValidityWindow))
    ));
}

/// A private PDA bound with a non-default identifier produces a ciphertext that decrypts
/// to `PrivateAccountKind::Pda` carrying the correct `(program_id, seed, identifier)`.
#[test]
fn private_pda_with_custom_identifier_encrypts_correct_kind() {
    let program_id = AccountId::new(NOOP);
    let keys = test_private_account_keys_1();
    let seed = PdaSeed::new([42; 32]);
    let identifier: u128 = 99;
    let account_id = for_private_pda(program_id, seed, &keys.npk, identifier);
    let secret = shared_secret(&account_id, nonce_init(&account_id));

    let output = execute_and_seal(
        unit_input(
            vec![Position::balance_only(account_id)],
            vec![init_pda_witness(&keys, identifier, (program_id, seed), Account::default())],
        ),
        alone(NOOP),
    )
    .unwrap();

    assert_eq!(
        decrypt_kind(&output, &secret, 0),
        PrivateAccountKind::Pda { account_id: program_id, seed, identifier },
    );
}

/// PDA init: the proxy chains to the transfer program with `pda_seeds` to establish
/// authorization and the private PDA binding.
#[test]
fn private_pda_init() {
    let program_id = AccountId::new(SIMPLE_TRANSFER_PROXY);
    let keys = test_private_account_keys_1();
    let seed = PdaSeed::new([42; 32]);
    // PDA (new, private PDA)
    let pda_id = for_private_pda(program_id, seed, &keys.npk, 0);

    // is_withdraw=false triggers init path (1 pre-state)
    let instruction =
        borsh::to_vec(&(seed.value, SIMPLE_BALANCE_TRANSFER, 0_u128, false)).unwrap();

    let result = execute_and_seal(
        ProvingInput {
            instruction_data: instruction,
            ..unit_input(
                vec![Position::balance_only(pda_id)],
                vec![init_pda_witness(&keys, 0, (program_id, seed), Account::default())],
            )
        },
        with_dependency(SIMPLE_TRANSFER_PROXY, SIMPLE_BALANCE_TRANSFER),
    );

    let output = result.expect("PDA init should succeed");
    assert_eq!(output.private_actions.len(), 1);
}

/// PDA withdraw: chains to the transfer program to move balance from PDA to recipient.
/// Uses a default PDA (amount=0).
#[test]
fn private_pda_withdraw() {
    let program_id = AccountId::new(SIMPLE_TRANSFER_PROXY);
    let keys = test_private_account_keys_1();
    let seed = PdaSeed::new([42; 32]);
    // PDA (new, private PDA)
    let pda_id = for_private_pda(program_id, seed, &keys.npk, 0);

    // Recipient (public)
    let recipient_id = AccountId::new([88; 32]);
    let recipient_account = Account { balance: 10000, ..Account::default() };

    // is_withdraw=true, amount=0 (PDA has no balance yet)
    let instruction =
        borsh::to_vec(&(seed.value, SIMPLE_BALANCE_TRANSFER, 0_u128, true)).unwrap();

    let result = execute_and_seal(
        ProvingInput {
            positions: vec![
                Position::balance_only(pda_id),
                Position::balance_only(recipient_id),
            ],
            signers: vec![recipient_id],
            public_accounts: world(vec![(recipient_id, recipient_account)]),
            private_witnesses: vec![init_pda_witness(
                &keys,
                0,
                (program_id, seed),
                Account::default(),
            )],
            instruction_data: instruction,
        },
        with_dependency(SIMPLE_TRANSFER_PROXY, SIMPLE_BALANCE_TRANSFER),
    );

    let output = result.expect("PDA withdraw should succeed");
    assert_eq!(output.private_actions.len(), 1);
}

/// Shared regular private account: receives funds directly, no custom program needed.
#[test]
fn shared_account_receives_via_simple_transfer() {
    let shared_keys = test_private_account_keys_1();
    let shared_identifier: u128 = 42;

    // Sender: public account with balance
    let sender_id = AccountId::new([99; 32]);
    let sender_account = Account { balance: 1000, ..Account::default() };

    // Recipient: shared private account (new, foreign)
    let shared_account_id = for_regular_private_account(&shared_keys.npk, shared_identifier);

    let balance_to_move: u128 = 100;
    let instruction = borsh::to_vec(&balance_to_move).unwrap();

    let result = execute_and_seal(
        ProvingInput {
            positions: vec![
                Position::balance_only(sender_id),
                Position::balance_only(shared_account_id),
            ],
            signers: vec![sender_id],
            public_accounts: world(vec![(sender_id, sender_account)]),
            private_witnesses: vec![init_witness(
                &shared_keys,
                shared_identifier,
                Account::default(),
            )],
            instruction_data: instruction,
        },
        alone(SIMPLE_BALANCE_TRANSFER),
    );

    let output = result.expect("shared account receive should succeed");
    // Sender is public (no commitment), recipient is private (1 commitment)
    assert_eq!(output.private_actions.len(), 1);
}

/// A regular init with an npk derived from the held `nsk` and a non-default identifier
/// produces a ciphertext that decrypts to `PrivateAccountKind::Regular` carrying the correct
/// identifier.
#[test]
fn private_authorized_init_encrypts_regular_kind_with_identifier() {
    let keys = test_private_account_keys_1();
    let identifier: u128 = 99;
    let account_id = for_regular_private_account(&keys.npk, identifier);
    let secret = shared_secret(&account_id, nonce_init(&account_id));

    let output = execute_and_seal(
        unit_input(
            vec![Position::balance_only(account_id)],
            vec![init_witness(&keys, identifier, Account::default())],
        ),
        alone(NOOP),
    )
    .unwrap();

    assert_eq!(decrypt_kind(&output, &secret, 0), PrivateAccountKind::Regular(identifier));
}

/// A regular init with a directly-supplied npk (the caller does not own the account) and a
/// non-default identifier produces a ciphertext that decrypts to `PrivateAccountKind::Regular`
/// carrying the correct identifier.
#[test]
fn private_foreign_init_encrypts_regular_kind_with_identifier() {
    let keys = test_private_account_keys_1();
    let identifier: u128 = 99;
    let recipient_id = for_regular_private_account(&keys.npk, identifier);
    let secret = shared_secret(&recipient_id, nonce_init(&recipient_id));

    let output = execute_and_seal(
        unit_input(
            vec![Position::balance_only(recipient_id)],
            vec![init_witness(&keys, identifier, Account::default())],
        ),
        alone(NOOP),
    )
    .unwrap();

    assert_eq!(decrypt_kind(&output, &secret, 0), PrivateAccountKind::Regular(identifier));
}

/// A regular update with a non-default identifier produces a ciphertext that decrypts
/// to `PrivateAccountKind::Regular` carrying the correct identifier.
#[test]
fn private_authorized_update_encrypts_regular_kind_with_identifier() {
    let keys = test_private_account_keys_1();
    let identifier: u128 = 99;
    let account_id = for_regular_private_account(&keys.npk, identifier);
    let secret = shared_secret(&account_id, nonce_increment(Nonce(0), &keys.nsk));
    let account = Account { balance: 1, ..Account::default() };
    let proof = proof_for(&commitment(&account_id, &account));

    let output = execute_and_seal(
        unit_input(
            vec![Position::balance_only(account_id)],
            vec![update_witness(&keys, identifier, account, proof)],
        ),
        alone(NOOP),
    )
    .unwrap();

    assert_eq!(decrypt_kind(&output, &secret, 0), PrivateAccountKind::Regular(identifier));
}

fn seeded_regular_account(keys: &Keys, identifier: u128) -> (AccountId, Account, MembershipProof) {
    let account_id = for_regular_private_account(&keys.npk, identifier);
    let proof = proof_for(&commitment(&account_id, &Account::with_balance(1)));
    requests::seeded_regular_account(account_id, proof)
}

fn regular_update(keys: &Keys, ask: Option<Credential>) -> (AccountId, PrivateWitness) {
    let (account_id, account, membership_proof) = seeded_regular_account(keys, 0);
    let witness = PrivateWitness {
        kind: WitnessKind::Regular { ask },
        ..update_witness(keys, 0, account, membership_proof)
    };
    (account_id, witness)
}

/// Spending without consenting. The witness carries no `ask`, so the pre-state is unauthorized,
/// and the nullifier is still produced from the `nsk`.
#[test]
fn private_regular_update_without_ask_is_spendable() {
    let keys = test_private_account_keys_1();
    let (account_id, witness) = regular_update(&keys, None);

    let output = execute_and_seal(
        unit_input(vec![Position::balance_only(account_id)], vec![witness]),
        alone(NOOP),
    )
    .unwrap();

    let spent = commitment(&account_id, &Account::with_balance(1));
    assert_eq!(output.nullifiers()[0].nullifier, nullifier_of_update(&spent, &keys.nsk));
}

/// Claiming authorization without supplying an `ask` is rejected. The account's id is put in
/// `signers` to force the top-level claim to `true` despite the witness carrying no credential.
#[test]
fn private_regular_witness_without_ask_cannot_assert_authorization() {
    let keys = test_private_account_keys_1();
    let (account_id, witness) = regular_update(&keys, None);

    let result = execute_and_seal(
        ProvingInput {
            signers: vec![account_id],
            ..unit_input(vec![Position::balance_only(account_id)], vec![witness])
        },
        alone(NOOP),
    );

    assert_eq!(rejection(result), CircuitRejection::AuthorizationMismatch);
}

/// An `ask` that does not derive this account's `nsk` is not a credential for it.
#[test]
fn regular_update_with_wrong_ask_nsk_is_rejected() {
    let keys = test_private_account_keys_1();
    let foreign = test_private_account_keys_2();
    let (account_id, witness) = regular_update(&keys, Some(foreign.ask()));

    let result = execute_and_seal(
        unit_input(vec![Position::balance_only(account_id)], vec![witness]),
        alone(NOOP),
    );

    assert_eq!(rejection(result), CircuitRejection::CredentialMismatch);
}

/// An `ask` that does not derive this account's `npk` is not a credential for it.
#[test]
fn regular_init_with_non_chaining_ask_npk_is_rejected() {
    let keys = test_private_account_keys_1();
    let foreign = test_private_account_keys_2();
    let account_id = for_regular_private_account(&keys.npk, 0);

    let result = execute_and_seal(
        unit_input(
            vec![Position::balance_only(account_id)],
            vec![PrivateWitness {
                kind: WitnessKind::Regular { ask: Some(foreign.ask()) },
                ..init_witness(&keys, 0, Account::default())
            }],
        ),
        alone(NOOP),
    );

    assert_eq!(rejection(result), CircuitRejection::CredentialMismatch);
}

/// A program that asserts authorization over its pre-states rejects a regular private account
/// whose witness supplied no `ask`.
#[test]
fn auth_asserting_program_rejects_unauthorized_regular_private_account() {
    let keys = test_private_account_keys_1();
    let (account_id, witness) = regular_update(&keys, None);

    let result = execute_and_seal(
        unit_input(vec![Position::balance_only(account_id)], vec![witness]),
        alone(AUTH_ASSERTING_NOOP),
    );

    assert!(matches!(result, Err(LeeError::ProgramProveFailed(_))));
}

#[test]
fn auth_asserting_program_accepts_an_account_whose_witness_shows_a_credential() {
    let keys = test_private_account_keys_1();
    let (account_id, witness) = regular_update(&keys, Some(keys.ask()));

    let result = execute_and_seal(
        unit_input(vec![Position::balance_only(account_id)], vec![witness]),
        alone(AUTH_ASSERTING_NOOP),
    );

    assert!(result.is_ok());
}

/// Root-call private-PDA update attempt: the proxy spends a PDA it owns through the transfer
/// program.
fn pda_update_attempt(
    declare_authorized: bool,
    derivation_identifier: u128,
    witness_identifier: u128,
) -> Result<PrivacyPreservingCircuitOutput, LeeError> {
    let keys = test_private_account_keys_1();
    let seed = PdaSeed::new([42; 32]);
    let program_id = AccountId::new(PDA_SPEND_PROXY);
    let pda_id = for_private_pda(program_id, seed, &keys.npk, derivation_identifier);
    let witness_id = for_private_pda(program_id, seed, &keys.npk, witness_identifier);
    let pda_commitment = commitment(&pda_id, &Account::with_balance(1));
    let (input, reach) = requests::pda_update_attempt(
        program(PDA_SPEND_PROXY),
        program(SIMPLE_BALANCE_TRANSFER),
        seed,
        pda_id,
        witness_identifier,
        derived_for_update(&keys, witness_id, Nonce(0)),
        0,
        keys.nsk,
        proof_for(&pda_commitment),
        declare_authorized,
    );
    execute_and_seal(input, reach)
}

/// A private-PDA update with a non-default identifier produces a ciphertext that decrypts
/// to `PrivateAccountKind::Pda` carrying the correct `(program_id, seed, identifier)`.
#[test]
fn private_pda_update_encrypts_pda_kind_with_identifier() {
    let program_id = AccountId::new(PDA_SPEND_PROXY);
    let keys = test_private_account_keys_1();
    let seed = PdaSeed::new([42; 32]);
    let identifier: u128 = 99;

    let output = pda_update_attempt(false, identifier, identifier)
        .expect("a well-formed private PDA update must prove");

    let pda_id = for_private_pda(program_id, seed, &keys.npk, identifier);
    let secret = shared_secret(&pda_id, nonce_increment(Nonce(0), &keys.nsk));
    assert_eq!(
        decrypt_kind(&output, &secret, 0),
        PrivateAccountKind::Pda { account_id: program_id, seed, identifier },
    );
}

#[test]
fn a_private_pda_update_moves_its_one_unit() {
    let output = pda_update_attempt(false, 99, 99).unwrap();

    let [action] = <[_; 1]>::try_from(output.public_actions).unwrap();
    assert_eq!(action.account_id, AccountId::new([0; 32]));
    assert!(action.is_authorized);
    assert_eq!(action.pre, AccountView::default());
    assert_eq!(action.post, AccountView { balance: 1, ..AccountView::default() });
}

/// The whole unit leaves the account, and its state is published under the nonce that follows.
#[test]
fn a_private_pda_update_publishes_an_emptied_state_under_the_next_nonce() {
    let program_id = AccountId::new(PDA_SPEND_PROXY);
    let keys = test_private_account_keys_1();
    let seed = PdaSeed::new([42; 32]);
    let nonce = nonce_increment(Nonce(0), &keys.nsk);
    let pda_id = for_private_pda(program_id, seed, &keys.npk, 99);

    let output = pda_update_attempt(false, 99, 99).unwrap();

    let (_kind, account) = decrypt(&output, &shared_secret(&pda_id, nonce), 0);
    assert_eq!(account, Account { balance: 0, nonce, ..Account::default() });
}

#[test]
fn a_note_carries_the_nonce_that_its_witness_calls_for() {
    let keys = test_private_account_keys_1();
    let derived = Derived {
        address: for_regular_private_account(&keys.npk, 0),
        view_tag: 0,
        init_nonce: Nonce(5),
        advanced_nonce: Nonce(6),
    };
    let publish = |witness: PrivateWitness| {
        let position = Position::balance_only(witness.derived.address);
        let journal = execute(unit_input(vec![position], vec![witness]), alone(NOOP)).unwrap();
        journal.private_notes.into_iter().next().unwrap().account
    };
    let held = || Account { balance: 3, nonce: Nonce(4), ..Account::default() };

    let init = PrivateWitness { derived, ..init_witness(&keys, 0, held()) };
    assert_eq!(init.note_nonce(), Nonce(5));
    assert_eq!(publish(init), held().with_nonce(Nonce(5)));

    let proof = proof_for(&DUMMY_COMMITMENT_HASH);
    let update = PrivateWitness { derived, ..update_witness(&keys, 0, held(), proof) };
    assert_eq!(update.note_nonce(), Nonce(6));
    assert_eq!(publish(update), held().with_nonce(Nonce(6)));
}

// The proxy calls a program that asserts authorization over the account of the witness.
fn call_under_seed(witness: PrivateWitness, seed: PdaSeed) -> Result<Journal, LeeError> {
    let position = Position::balance_only(witness.derived.address);
    let instruction =
        borsh::to_vec(&(seed.value, AUTH_ASSERTING_NOOP, 0_u128, false)).unwrap();
    execute(
        ProvingInput {
            instruction_data: instruction,
            ..unit_input(vec![position], vec![witness])
        },
        with_dependency(SIMPLE_TRANSFER_PROXY, AUTH_ASSERTING_NOOP),
    )
}

#[test]
fn a_seed_authorizes_the_private_account_that_the_caller_derives_from_it() {
    let keys = test_private_account_keys_1();
    let seed = PdaSeed::new([42; 32]);
    let proxy = AccountId::new(SIMPLE_TRANSFER_PROXY);
    let stranger = AccountId::new(NOOP);
    let witness = |program| init_pda_witness(&keys, 0, (program, seed), Account::default());

    assert!(call_under_seed(witness(proxy), seed).is_ok());
    for result in [
        call_under_seed(witness(proxy), PdaSeed::new([43; 32])),
        call_under_seed(witness(stranger), seed),
    ] {
        assert!(matches!(result, Err(LeeError::ProgramProveFailed(_))));
    }
}

#[test]
fn grants_are_what_witnesses_name() {
    let keys = test_private_account_keys_1();
    let seed = PdaSeed::new([42; 32]);
    let other = PdaSeed::new([43; 32]);
    let proxy = AccountId::new(SIMPLE_TRANSFER_PROXY);
    let witnesses = vec![
        init_witness(&keys, 0, Account::default()),
        init_pda_witness(&keys, 1, (proxy, seed), Account::default()),
        init_pda_witness(&keys, 2, (AccountId::new(NOOP), seed), Account::default()),
        init_pda_witness(&keys, 3, (proxy, other), Account::default()),
    ];
    let address = |i: usize| witnesses[i].derived.address;

    assert_eq!(granted_by(&witnesses, proxy, &vec![seed]), vec![address(1)]);
    assert_eq!(granted_by(&witnesses, proxy, &vec![other, seed]), vec![address(1), address(3)]);
    assert_eq!(granted_by(&witnesses, AccountId::new(NOOP), &vec![seed]), vec![address(2)]);
    assert!(granted_by(&witnesses, proxy, &vec![]).is_empty());
}

#[test]
fn private_pda_update_at_root_call_may_not_declare_authorization() {
    let result = pda_update_attempt(true, 99, 99);

    assert_eq!(rejection(result), CircuitRejection::RootPdaAuthorization);
}

#[test]
fn private_pda_init_identifier_mismatch_fails() {
    let program_id = AccountId::new(NOOP);
    let keys = test_private_account_keys_1();
    let seed = PdaSeed::new([42; 32]);
    let account_id = for_private_pda(program_id, seed, &keys.npk, 5);

    let result = execute_and_seal(
        unit_input(
            vec![Position::balance_only(account_id)],
            vec![init_pda_witness(&keys, 99, (program_id, seed), Account::default())],
        ),
        alone(NOOP),
    );

    assert_eq!(rejection(result), CircuitRejection::UnmatchedWitness);
}

#[test]
fn private_pda_init_at_root_call_may_not_declare_authorization() {
    let program_id = AccountId::new(NOOP);
    let keys = test_private_account_keys_1();
    let seed = PdaSeed::new([42; 32]);
    let identifier: u128 = 5;
    let account_id = for_private_pda(program_id, seed, &keys.npk, identifier);

    let result = execute_and_seal(
        ProvingInput {
            signers: vec![account_id],
            ..unit_input(
                vec![Position::balance_only(account_id)],
                vec![init_pda_witness(&keys, identifier, (program_id, seed), Account::default())],
            )
        },
        alone(NOOP),
    );

    assert_eq!(rejection(result), CircuitRejection::RootPdaAuthorization);
}

#[test]
fn private_pda_update_identifier_mismatch_fails() {
    let result = pda_update_attempt(false, 5, 99);

    assert_eq!(rejection(result), CircuitRejection::UnmatchedWitness);
}

#[test]
fn a_private_pda_cannot_be_spent_for_itself() {
    let keys = test_private_account_keys_1();
    let seed = PdaSeed::new([42; 32]);
    let attempt = |pda: u8, witness: u8| {
        let (input, reach) = requests::pda_update_attempt(
            program(PDA_SPEND_PROXY),
            program(SIMPLE_BALANCE_TRANSFER),
            seed,
            AccountId::new([pda; 32]),
            99,
            derived_for_update(&keys, AccountId::new([witness; 32]), Nonce(0)),
            0,
            keys.nsk,
            proof_for(&keys.npk),
            false,
        );
        execute_and_seal(input, reach)
    };

    // The recipient of the attempt is the account of zeroes.
    assert!(matches!(attempt(0, 1), Err(LeeError::InvalidProgramBehavior)));
    assert_eq!(rejection(attempt(0, 0)), CircuitRejection::RootPdaAuthorization);
    assert_eq!(rejection(attempt(1, 0)), CircuitRejection::RootPdaAuthorization);
    assert_eq!(rejection(attempt(1, 2)), CircuitRejection::UnmatchedWitness);
    assert!(attempt(1, 1).is_ok());
}

#[test]
fn signers_count_in_whatever_order_they_are_listed() {
    let sender_id = AccountId::new([1; 32]);
    let recipient_id = AccountId::new([2; 32]);
    let transfer = |signers: Vec<AccountId>| {
        execute(
            ProvingInput {
                positions: vec![
                    Position::balance_only(sender_id),
                    Position::balance_only(recipient_id),
                ],
                signers,
                public_accounts: world(vec![(sender_id, Account::with_balance(5))]),
                private_witnesses: vec![],
                instruction_data: borsh::to_vec(&2_u128).unwrap(),
            },
            alone(SIMPLE_BALANCE_TRANSFER),
        )
        .unwrap()
    };

    assert_eq!(
        transfer(vec![sender_id, recipient_id]),
        transfer(vec![recipient_id, sender_id, recipient_id])
    );
    assert_ne!(transfer(vec![sender_id]), transfer(vec![recipient_id]));
}

#[test]
fn a_transfer_that_overdraws_is_rejected() {
    let sender_id = AccountId::new([1; 32]);
    let recipient_id = AccountId::new([2; 32]);
    let transfer = |amount: u128, held: u128, there: u128| {
        execute(
            ProvingInput {
                positions: vec![
                    Position::balance_only(sender_id),
                    Position::balance_only(recipient_id),
                ],
                signers: vec![sender_id],
                public_accounts: world(vec![
                    (sender_id, Account::with_balance(held)),
                    (recipient_id, Account::with_balance(there)),
                ]),
                private_witnesses: vec![],
                instruction_data: borsh::to_vec(&amount).unwrap(),
            },
            alone(SIMPLE_BALANCE_TRANSFER),
        )
    };

    assert!(matches!(transfer(6, 5, 0), Err(LeeError::InvalidProgramBehavior)));
    assert!(matches!(transfer(1, 5, u128::MAX), Err(LeeError::InvalidProgramBehavior)));
    let journal = transfer(5, 5, 1).unwrap();
    assert_eq!(journal.public_actions[0].post.balance, 0);
    assert_eq!(journal.public_actions[1].post.balance, 6);
    assert!(journal.public_actions[0].is_authorized);
    assert!(!journal.public_actions[1].is_authorized);
}
