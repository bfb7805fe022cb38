use lee_traversal::account::Account;
use lee_traversal::data::Data;
use lee_traversal::error::LeeError;
use lee_traversal::instruction::{
    calls_at, data_changer_instruction, forward_to, forwarder_instruction,
};
use lee_traversal::namespace_forwarder::{
    respond, run, ProgramCall, Response, RunError,
};
use lee_traversal::position::{AccountId, Position};
use lee_traversal::program::{
    BalanceDiff, Input, Program, ProgramOutput, ProgramWithDependencies, ShardStateDiff,
};
use lee_traversal::requests::{
    forwarder_over_callee, forwarder_over_itself, forwarding_input, input_with,
};
use lee_traversal::id_map::IdMap;
use lee_traversal::traversal::{Due, Journal, ProvingInput, RunCall, Traversal};

const FORWARDER: [u8; 32] = [0xF0; 32];
const DATA_CHANGER: [u8; 32] = [0xDC; 32];
const NOOP: [u8; 32] = [0x00; 32];

fn program(id: [u8; 32]) -> Program {
    Program { id: AccountId::new(id), elf: vec![id[0]] }
}

// Writes the bytes of its instruction as its own shard at the position it is called on.
fn data_changer(call: RunCall) -> Result<ProgramOutput, LeeError> {
    let write: Vec<u8> = borsh::from_slice(&call.instruction_data)
        .map_err(|e| LeeError::ProgramProveFailed(format!("{e}")))?;
    let mut pre_states = call.pre_states;
    let own = pre_states.pop().ok_or(LeeError::InvalidProgramBehavior)?;
    let diff = ShardStateDiff::new(own, BalanceDiff::Add(0), Data::try_from(write).unwrap());
    Ok(ProgramOutput::new(call.program, call.caller, call.instruction_data, vec![diff]))
}

// Reports every position unchanged.
fn noop(call: RunCall) -> ProgramOutput {
    let diffs = call.pre_states.into_iter().map(ShardStateDiff::unchanged).collect();
    ProgramOutput::new(call.program, call.caller, call.instruction_data, diffs)
}

fn forwarder(call: RunCall) -> Result<ProgramOutput, LeeError> {
    match run(call.program, call.caller, call.pre_states, call.instruction_data) {
        Ok(Response::Output(output)) => Ok(output),
        Ok(_) => Err(LeeError::ProgramProveFailed("no answer".to_owned())),
        Err(error) => Err(LeeError::ProgramProveFailed(format!("{error:?}"))),
    }
}

fn run_program(call: RunCall) -> Result<ProgramOutput, LeeError> {
    let id = call.program.value;
    if id == FORWARDER {
        forwarder(call)
    } else if id == DATA_CHANGER {
        data_changer(call)
    } else if id == NOOP {
        Ok(noop(call))
    } else {
        Err(LeeError::ProgramProveFailed("unknown program".to_owned()))
    }
}

fn execute_with(
    input: ProvingInput,
    program: ProgramWithDependencies,
    resolve: &mut dyn FnMut(Position) -> Result<Option<Data>, LeeError>,
) -> Result<Journal, LeeError> {
    let mut traversal = Traversal::start(input, program);
    loop {
        match traversal.due() {
            Due::Resolve(position) => traversal.resolve(resolve(position)),
            Due::Run(call) => match run_program(call) {
                Ok(output) => {
                    let granted = output.chained_calls.iter().map(|_| vec![]).collect();
                    traversal.ran(output, granted);
                }
                Err(error) => traversal.abort(error),
            },
            Due::Failed | Due::Finished => return traversal.finish(),
        }
    }
}

fn execute(input: ProvingInput, program: ProgramWithDependencies) -> Result<Journal, LeeError> {
    execute_with(input, program, &mut |_| Ok(None))
}

fn over_callee() -> (ProgramWithDependencies, AccountId, AccountId) {
    forwarder_over_callee(program(FORWARDER), program(DATA_CHANGER))
}

#[test]
fn resolver_supplies_a_chained_calls_unfetched_shard() {
    let (program, forwarder_id, callee_id) = over_callee();
    let account_id = AccountId::new([7; 32]);
    let balance = 500;
    // What the chain holds at `(account, callee)`. A wallet that fetched only the namespace its
    // mention named does not have it, so the traversal has to ask for it.
    let on_chain = Data::try_from(vec![1; 8]).unwrap();
    let own_namespace = Data::try_from(vec![2; 8]).unwrap();
    let write = vec![3; 16];

    let sparse = Account::with_balance(balance).with_shard(forwarder_id, own_namespace.clone());

    let mut asked: Vec<Position> = Vec::new();
    let output = execute_with(
        forwarding_input(account_id, forwarder_id, callee_id, sparse, &write),
        program,
        &mut |position| {
            asked.push(position);
            Ok(Some(on_chain.clone()))
        },
    )
    .unwrap();

    assert_eq!(asked, vec![Position::new(account_id, callee_id)]);

    let [action] = <[_; 1]>::try_from(output.public_actions).unwrap();
    assert_eq!(action.account_id, account_id);
    assert_eq!(action.pre.balance, balance);
    assert_eq!(action.pre.shards.get(forwarder_id), Some(&own_namespace));
    assert_eq!(action.pre.shards.get(callee_id), Some(&on_chain));
    assert_eq!(action.post.balance, balance);
    assert_eq!(action.post.shards.get(callee_id), Some(&Data::try_from(write).unwrap()));
}

#[test]
fn a_resolved_sparse_account_matches_the_complete_one() {
    let account_id = AccountId::new([7; 32]);
    let on_chain = Data::try_from(vec![1; 8]).unwrap();
    let write = vec![3; 16];
    let (program, forwarder_id, callee_id) = over_callee();

    let sparse = Account::with_balance(500)
        .with_shard(forwarder_id, Data::try_from(vec![2; 8]).unwrap());
    let complete = sparse.clone().with_shard(callee_id, on_chain.clone());

    // The whole account: no resolution happens.
    let complete_output = execute(
        forwarding_input(account_id, forwarder_id, callee_id, complete, &write),
        program,
    )
    .unwrap();

    let resolved_output = execute_with(
        forwarding_input(account_id, forwarder_id, callee_id, sparse.clone(), &write),
        over_callee().0,
        &mut |_| Ok(Some(on_chain.clone())),
    )
    .unwrap();

    assert_eq!(resolved_output, complete_output);

    // The same sparse account with no resolver journals an empty pre where the chain holds a
    // record.
    let unresolved_output = execute(
        forwarding_input(account_id, forwarder_id, callee_id, sparse, &write),
        over_callee().0,
    )
    .unwrap();

    assert_ne!(unresolved_output, complete_output);
}

#[test]
fn resolving_an_empty_shard_matches_not_resolving_at_all() {
    let (program, forwarder_id, callee_id) = over_callee();
    let account_id = AccountId::new([7; 32]);
    let write = vec![3; 16];

    let sparse = Account::with_balance(500)
        .with_shard(forwarder_id, Data::try_from(vec![2; 8]).unwrap());

    let unresolved_output = execute(
        forwarding_input(account_id, forwarder_id, callee_id, sparse.clone(), &write),
        program,
    )
    .unwrap();

    let mut asked = 0_u32;
    let resolved_output = execute_with(
        forwarding_input(account_id, forwarder_id, callee_id, sparse, &write),
        over_callee().0,
        &mut |_| {
            asked += 1;
            Ok(Some(Data::empty()))
        },
    )
    .unwrap();

    assert_eq!(asked, 1);
    assert_eq!(resolved_output, unresolved_output);
}

#[test]
fn a_resolver_error_aborts_the_traversal() {
    let (program, forwarder_id, callee_id) = over_callee();
    let account_id = AccountId::new([7; 32]);

    let result = execute_with(
        forwarding_input(account_id, forwarder_id, callee_id, Account::default(), &[3; 16]),
        program,
        &mut |_| Err(LeeError::AccountResolution("sequencer unreachable".to_owned())),
    );

    assert!(matches!(result, Err(LeeError::AccountResolution(_))));
}

#[test]
fn a_top_level_position_is_never_resolved_for() {
    let (program, forwarder_id) = forwarder_over_itself(program(FORWARDER));
    let account_id = AccountId::new([7; 32]);
    let supplied = Data::try_from(vec![0xA1; 12]).unwrap();

    // A chained call lands back on the position the transaction named top-level. The caller
    // already supplied that position's value, so nothing may fetch another one over it.
    let instruction = forwarder_instruction(
        None,
        &calls_at(account_id, &[(forwarder_id, forwarder_instruction(None, &[]))]),
    );

    let mut asked: Vec<Position> = Vec::new();
    let output = execute_with(
        input_with(
            account_id,
            forwarder_id,
            Account::default().with_shard(forwarder_id, supplied.clone()),
            instruction,
        ),
        program,
        &mut |position| {
            asked.push(position);
            Ok(Some(Data::try_from(vec![0xEE; 12]).unwrap()))
        },
    )
    .unwrap();

    assert!(
        asked.is_empty(),
        "the only position this transaction touches came from the caller: {asked:?}"
    );

    let [action] = <[_; 1]>::try_from(output.public_actions).unwrap();
    assert_eq!(
        action.post.shards.get(forwarder_id),
        Some(&supplied),
        "the chained call must have run against the supplied value, not the resolver's"
    );
}

#[test]
fn a_position_is_resolved_at_most_once_across_chained_calls() {
    let (program, forwarder_id, callee_id) = over_callee();
    let account_id = AccountId::new([7; 32]);
    let first = vec![0xC1; 12];
    let second = vec![0xC2; 12];

    // Two chained calls at the same position. The first finds it uncovered and is resolved
    // empty; the second must not be, because the first call's own write now covers it.
    let instruction = forwarder_instruction(
        None,
        &calls_at(
            account_id,
            &[
                (callee_id, data_changer_instruction(&first)),
                (callee_id, data_changer_instruction(&second)),
            ],
        ),
    );

    let mut asked: Vec<Position> = Vec::new();
    let output = execute_with(
        input_with(account_id, forwarder_id, Account::default(), instruction),
        program,
        &mut |position| {
            asked.push(position);
            Ok(Some(Data::empty()))
        },
    )
    .unwrap();

    assert_eq!(asked, vec![Position::new(account_id, callee_id)]);

    let [action] = <[_; 1]>::try_from(output.public_actions).unwrap();
    assert_eq!(action.post.shards.get(callee_id), Some(&Data::try_from(second).unwrap()));
}

#[test]
fn a_write_at_an_account_nothing_handed_the_root_is_never_resolved_over() {
    let (program, forwarder_id, echo_id) =
        forwarder_over_callee(program(FORWARDER), program(NOOP));

    let account_id = AccountId::new([7; 32]);
    let fresh_id = AccountId::new([8; 32]);
    let written = vec![0xA1; 12];

    // `fresh` enters the transaction through an output diff alone and never through a mention.
    let instruction = forwarder_instruction(
        Some((fresh_id, &written)),
        &[(echo_id, Position::new(fresh_id, forwarder_id), vec![])],
    );

    let mut asked: Vec<Position> = Vec::new();
    let output = execute_with(
        input_with(account_id, forwarder_id, Account::default(), instruction),
        program,
        &mut |position| {
            asked.push(position);
            Ok(Some(Data::try_from(vec![0xEE; 12]).unwrap()))
        },
    )
    .unwrap();

    assert!(
        !asked.contains(&Position::new(fresh_id, forwarder_id)),
        "the root's own write covers the position; fetching for it would drop that write: \
         {asked:?}"
    );

    let fresh = output
        .public_actions
        .iter()
        .find(|action| action.account_id == fresh_id)
        .expect("the fresh account must appear in the journal");
    assert_eq!(
        fresh.post.shards.get(forwarder_id),
        Some(&Data::try_from(written).unwrap()),
        "the callee must have run against the root's write, not the resolver's value"
    );
}

#[test]
fn a_write_over_an_account_that_is_not_fresh_is_rejected() {
    let (program, forwarder_id, _) = forwarder_over_callee(program(FORWARDER), program(NOOP));
    let account_id = AccountId::new([7; 32]);
    let instruction = forwarder_instruction(Some((account_id, &[1])), &[]);
    let held = Account::with_balance(5);

    let result = execute(input_with(account_id, forwarder_id, held, instruction), program);

    assert!(matches!(result, Err(LeeError::InvalidProgramBehavior)));
}

#[test]
fn a_call_out_of_reach_is_rejected() {
    let (program, forwarder_id, _) = over_callee();
    let account_id = AccountId::new([7; 32]);
    let stranger = AccountId::new([9; 32]);
    let instruction = forward_to(account_id, stranger, &[1]);

    let result =
        execute(input_with(account_id, forwarder_id, Account::default(), instruction), program);

    assert!(matches!(result, Err(LeeError::InvalidProgramBehavior)));
}

#[test]
fn a_write_under_another_namespace_is_rejected() {
    let (program, forwarder_id, callee_id) = over_callee();
    let account_id = AccountId::new([7; 32]);
    // The callee is pointed at the forwarder's shard, which is not its own to change.
    let instruction = forwarder_instruction(
        None,
        &[(
            callee_id,
            Position::new(account_id, forwarder_id),
            data_changer_instruction(&[1]),
        )],
    );

    let result =
        execute(input_with(account_id, forwarder_id, Account::default(), instruction), program);

    assert!(matches!(result, Err(LeeError::InvalidProgramBehavior)));
}

#[test]
fn a_failed_run_aborts_the_traversal() {
    let (program, forwarder_id, callee_id) = over_callee();
    let account_id = AccountId::new([7; 32]);
    // A length that promises more bytes than follow.
    let instruction = forwarder_instruction(
        None,
        &calls_at(account_id, &[(callee_id, vec![9, 0, 0, 0, 1])]),
    );

    let result =
        execute(input_with(account_id, forwarder_id, Account::default(), instruction), program);

    assert!(matches!(result, Err(LeeError::ProgramProveFailed(_))));
}

#[test]
fn a_failing_run_comes_to_the_same_however_its_shard_was_had() {
    let (_, forwarder_id, callee_id) = over_callee();
    let account_id = AccountId::new([7; 32]);
    let on_chain = Data::try_from(vec![1; 8]).unwrap();
    // A length that promises more bytes than follow.
    let instruction = || {
        forwarder_instruction(None, &calls_at(account_id, &[(callee_id, vec![9, 0, 0, 0, 1])]))
    };
    let request =
        |account: Account| input_with(account_id, forwarder_id, account, instruction());
    let failure = |result: Result<Journal, LeeError>| match result {
        Err(LeeError::ProgramProveFailed(reason)) => reason,
        other => panic!("the run must fail: {other:?}"),
    };

    let complete = Account::default().with_shard(callee_id, on_chain.clone());
    let whole = failure(execute(request(complete), over_callee().0));
    let resolved = failure(execute_with(request(Account::default()), over_callee().0, &mut |_| {
        Ok(Some(on_chain.clone()))
    }));
    let empty = failure(execute_with(request(Account::default()), over_callee().0, &mut |_| {
        Ok(Some(Data::empty()))
    }));
    let unresolved = failure(execute(request(Account::default()), over_callee().0));
    assert_eq!(resolved, whole);
    assert_eq!(empty, unresolved);
}

#[test]
fn a_forwarder_is_at_one_address_however_it_is_set_up() {
    let (over_itself, own_id) = forwarder_over_itself(program(FORWARDER));
    let (over_callee, forwarder_id, callee_id) = over_callee();
    assert_eq!(own_id, forwarder_id);
    assert_eq!(over_itself.account_id, over_callee.account_id);
    assert_ne!(own_id, callee_id);
}

#[test]
fn fetching_one_shard_leaves_the_others_alone() {
    let (program, forwarder_id, callee_id) = over_callee();
    let account_id = AccountId::new([7; 32]);
    let bystander = AccountId::new([6; 32]);
    let instruction = forwarder_instruction(
        None,
        &[
            (callee_id, Position::new(account_id, callee_id), data_changer_instruction(&[1])),
            (callee_id, Position::new(bystander, callee_id), data_changer_instruction(&[2])),
        ],
    );
    let mut asked: Vec<Position> = Vec::new();
    let output = execute_with(
        input_with(account_id, forwarder_id, Account::with_balance(3), instruction),
        program,
        &mut |position| {
            asked.push(position);
            Ok(Some(Data::try_from(vec![0xEE; asked.len()]).unwrap()))
        },
    )
    .unwrap();

    assert_eq!(
        asked,
        vec![Position::new(account_id, callee_id), Position::new(bystander, callee_id)]
    );
    let first = &output.public_actions[0];
    assert_eq!(first.pre.shards.get(callee_id), Some(&Data::try_from(vec![0xEE]).unwrap()));
    assert_eq!(first.post.shards.get(callee_id), Some(&Data::try_from(vec![1]).unwrap()));
    assert_eq!((first.pre.balance, first.post.balance), (3, 3));
    let second = &output.public_actions[1];
    assert_eq!(second.account_id, bystander);
    assert_eq!(second.pre.shards.get(callee_id), Some(&Data::try_from(vec![0xEE; 2]).unwrap()));
    assert_eq!(second.pre.shards.len(), 1);
}

#[test]
fn the_forwarder_answers_only_one_position() {
    let id = AccountId::new(FORWARDER);
    let instruction = forwarder_instruction(None, &[]);
    let answer = run(id, None, vec![], instruction.clone());
    assert!(matches!(answer, Ok(Response::Silent)));

    let own = || Input::named(AccountId::new([7; 32]), true, 9, id, Data::empty());
    let answer = run(id, None, vec![own(), own()], instruction);
    assert!(matches!(answer, Ok(Response::Silent)));
}

#[test]
fn the_forwarder_supports_no_call_but_a_run() {
    assert!(matches!(respond(ProgramCall::Other), Response::UnsupportedCall));
}

#[test]
fn the_forwarder_refuses_what_it_cannot_read_or_hold() {
    let id = AccountId::new(FORWARDER);
    let own = || Input::named(AccountId::new([7; 32]), true, 9, id, Data::empty());

    let answer = run(id, None, vec![own()], vec![2]);
    assert!(matches!(answer, Err(RunError::MalformedInstruction)));

    let big = vec![0; 716_801];
    let instruction = forwarder_instruction(Some((id, &big)), &[]);
    let answer = run(id, None, vec![own()], instruction);
    assert!(matches!(answer, Err(RunError::WriteTooBig)));
}

#[test]
fn the_forwarder_reports_its_position_its_write_and_its_calls() {
    let id = AccountId::new(FORWARDER);
    let caller = Some(AccountId::new([5; 32]));
    let target = AccountId::new([8; 32]);
    let own = Input::named(AccountId::new([7; 32]), true, 9, id, Data::try_from(vec![4]).unwrap());
    let position = Position::balance_only(target);
    let instruction = forwarder_instruction(
        Some((target, &[1, 2])),
        &[(AccountId::new(NOOP), position, vec![3])],
    );

    let Ok(Response::Output(output)) =
        run(id, caller, vec![own.clone()], instruction.clone())
    else {
        panic!("the forwarder must answer");
    };

    assert_eq!(output.self_account_id, id);
    assert_eq!(output.caller_account_id, caller);
    assert_eq!(output.instruction_data, instruction);
    assert_eq!(output.state_diffs.len(), 2);
    assert_eq!(output.state_diffs[0], ShardStateDiff::unchanged(own));
    assert_eq!(
        output.state_diffs[1],
        ShardStateDiff::new(
            Input::named(target, false, 0, id, Data::empty()),
            BalanceDiff::Add(0),
            Data::try_from(vec![1, 2]).unwrap(),
        )
    );
    assert_eq!(output.chained_calls.len(), 1);
    assert_eq!(output.chained_calls[0].program_account_id, AccountId::new(NOOP));
    assert_eq!(output.chained_calls[0].instruction_data, vec![3]);
    assert_eq!(output.chained_calls[0].positions, vec![position]);
    assert!(output.chained_calls[0].pda_seeds.is_empty());
}

#[test]
fn a_fetched_shard_does_not_replace_a_write() {
    // The write of the first call settles the position that the second call names.
    let (program, forwarder_id, callee_id) = over_callee();
    let account_id = AccountId::new([7; 32]);
    let mut traversal = Traversal::start(
        input_with(
            account_id,
            forwarder_id,
            Account::default(),
            forwarder_instruction(
                None,
                &calls_at(
                    account_id,
                    &[
                        (callee_id, data_changer_instruction(&[1])),
                        (callee_id, data_changer_instruction(&[2])),
                    ],
                ),
            ),
        ),
        program,
    );
    let Due::Run(call) = traversal.due() else { panic!("the root must be due") };
    assert_eq!(call.program, forwarder_id);
    assert_eq!(call.caller, None);
    traversal.ran(run_program(call).unwrap(), vec![vec![], vec![]]);

    let Due::Resolve(position) = traversal.due() else { panic!("a shard must be due") };
    assert_eq!(position, Position::new(account_id, callee_id));
    traversal.resolve(Ok(Some(Data::try_from(vec![9]).unwrap())));

    let Due::Run(call) = traversal.due() else { panic!("the first call must be due") };
    assert_eq!(call.program, callee_id);
    assert_eq!(call.caller, Some(forwarder_id));
    assert_eq!(call.pre_states[0].data, Data::try_from(vec![9]).unwrap());
    traversal.ran(run_program(call).unwrap(), vec![]);

    let Due::Run(call) = traversal.due() else { panic!("the second call must be due") };
    assert_eq!(call.pre_states[0].data, Data::try_from(vec![1]).unwrap());
    traversal.ran(run_program(call).unwrap(), vec![]);

    assert!(matches!(traversal.due(), Due::Finished));
    let journal = traversal.finish().unwrap();
    let action = &journal.public_actions[0];
    assert_eq!(action.pre.shards.get(callee_id), Some(&Data::try_from(vec![9]).unwrap()));
    assert_eq!(action.post.shards.get(callee_id), Some(&Data::try_from(vec![2]).unwrap()));
}

#[test]
fn accounts_that_the_seeds_of_a_call_derive_are_authorized_in_it() {
    let (program, forwarder_id, echo_id) =
        forwarder_over_callee(program(FORWARDER), program(NOOP));
    let account_id = AccountId::new([7; 32]);
    let instruction =
        forwarder_instruction(None, &[(echo_id, Position::balance_only(account_id), vec![])]);
    let mut traversal = Traversal::start(
        input_with(account_id, forwarder_id, Account::default(), instruction),
        program,
    );
    let Due::Run(call) = traversal.due() else { panic!("the root must be due") };
    assert!(!call.pre_states[0].is_authorized);
    traversal.ran(run_program(call).unwrap(), vec![vec![account_id]]);

    let Due::Run(call) = traversal.due() else { panic!("the call must be due") };
    assert!(call.pre_states[0].is_authorized);
    traversal.ran(run_program(call).unwrap(), vec![]);

    let journal = traversal.finish().unwrap();
    assert!(!journal.public_actions[0].is_authorized);
}

#[test]
fn nested_calls_run_before_the_calls_that_wait() {
    // The root forwards to itself and then writes through the data changer; the inner forward
    // writes first, although it was only made while the outer write already waited.
    let forwarder_id = AccountId::new(FORWARDER);
    let changer_id = AccountId::new(DATA_CHANGER);
    let account_id = AccountId::new([7; 32]);
    let mut dependencies: IdMap<Program> = IdMap::new();
    dependencies.insert(forwarder_id, program(FORWARDER));
    dependencies.insert(changer_id, program(DATA_CHANGER));
    let reach = ProgramWithDependencies::new(program(FORWARDER), forwarder_id, dependencies);
    let inner = forward_to(account_id, changer_id, &[1]);
    let instruction = forwarder_instruction(
        None,
        &calls_at(
            account_id,
            &[(forwarder_id, inner), (changer_id, data_changer_instruction(&[2]))],
        ),
    );

    let output =
        execute(input_with(account_id, forwarder_id, Account::default(), instruction), reach)
            .unwrap();

    assert_eq!(
        output.public_actions[0].post.shards.get(changer_id),
        Some(&Data::try_from(vec![2]).unwrap())
    );
}
