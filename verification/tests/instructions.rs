use lee_traversal::instruction::{
    calls_at, data_changer_instruction, decode_instruction, forward_to, forwarder_instruction,
    spend_instruction, MalformedInstruction,
};
use lee_traversal::position::{AccountId, Position};
use lee_traversal::program::PdaSeed;

#[test]
fn a_byte_instruction_is_its_length_and_its_bytes() {
    assert_eq!(data_changer_instruction(&[]), vec![0, 0, 0, 0]);
    assert_eq!(data_changer_instruction(&[7, 8, 9]), vec![3, 0, 0, 0, 7, 8, 9]);
    let long = vec![1_u8; 0x1_02_03];
    assert_eq!(data_changer_instruction(&long)[..4], [3, 2, 1, 0]);
}

#[test]
fn no_two_writes_share_a_byte_instruction() {
    let writes: [&[u8]; 5] = [&[], &[0], &[0, 0], &[1], &[1, 0, 0, 0]];
    for (i, a) in writes.iter().enumerate() {
        for b in &writes[i + 1..] {
            assert_ne!(data_changer_instruction(a), data_changer_instruction(b));
        }
    }
}

#[test]
fn a_forwarding_instruction_has_the_documented_layout() {
    let a = AccountId::new([1; 32]);
    let b = AccountId::new([2; 32]);
    assert_eq!(forwarder_instruction(None, &[]), vec![0, 0, 0, 0, 0]);

    let bytes = forwarder_instruction(
        Some((a, &[5])),
        &[(b, Position::balance_only(a), vec![]), (a, Position::new(a, b), vec![6])],
    );
    let mut expected = vec![1];
    expected.extend([1; 32]);
    expected.extend([1, 0, 0, 0, 5]);
    expected.extend([2, 0, 0, 0]);
    expected.extend([2; 32]);
    expected.extend([1; 32]);
    expected.push(0);
    expected.extend([0, 0, 0, 0]);
    expected.extend([1; 32]);
    expected.extend([1; 32]);
    expected.push(1);
    expected.extend([2; 32]);
    expected.extend([1, 0, 0, 0, 6]);
    assert_eq!(bytes, expected);
}

#[test]
fn reading_gives_back_what_was_written() {
    let a = AccountId::new([1; 32]);
    let b = AccountId::new([2; 32]);
    let calls = vec![
        (b, Position::balance_only(a), vec![]),
        (a, Position::new(a, b), vec![6, 7]),
    ];
    let bytes = forwarder_instruction(Some((a, &[5])), &calls);
    assert_eq!(decode_instruction(&bytes), Ok((Some((a, vec![5])), calls)));

    let bytes = forwarder_instruction(None, &[]);
    assert_eq!(decode_instruction(&bytes), Ok((None, vec![])));
}

#[test]
fn malformed_instructions_are_refused() {
    let mut bytes = forwarder_instruction(None, &[]);
    bytes.push(0);
    assert_eq!(decode_instruction(&bytes), Err(MalformedInstruction));
    assert_eq!(decode_instruction(&vec![]), Err(MalformedInstruction));
    assert_eq!(decode_instruction(&vec![2, 0, 0, 0, 0]), Err(MalformedInstruction));
    assert_eq!(decode_instruction(&vec![0, 1, 0, 0, 0]), Err(MalformedInstruction));
}

#[test]
fn calls_are_aimed_at_the_callees_own_namespace() {
    let account = AccountId::new([7; 32]);
    let callee = AccountId::new([9; 32]);
    assert_eq!(
        calls_at(account, &[(callee, vec![1])]),
        vec![(callee, Position::new(account, callee), vec![1])]
    );
}

#[test]
fn one_forwarded_write_is_one_aimed_call() {
    let account = AccountId::new([7; 32]);
    let callee = AccountId::new([9; 32]);
    assert_eq!(
        decode_instruction(&forward_to(account, callee, &[1, 2])),
        Ok((
            None,
            vec![(callee, Position::new(account, callee), vec![2, 0, 0, 0, 1, 2])]
        ))
    );
}

#[test]
fn a_spend_is_seed_amount_and_transfer_program() {
    let bytes = spend_instruction(PdaSeed::new([42; 32]), 0x0102, AccountId::new([3; 32]));
    let mut expected = vec![42; 32];
    expected.extend([2, 1]);
    expected.extend([0; 14]);
    expected.extend([3; 32]);
    assert_eq!(bytes, expected);
}
