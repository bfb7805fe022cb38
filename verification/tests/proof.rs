use lee_traversal::output::{
    EncryptedAccountData, NewNullifier, PrivacyPreservingCircuitOutput, PrivateAction, Proof,
};
use lee_traversal::witness::Key;

#[test]
fn proof_inner_roundtrip() {
    let bytes = vec![0xDE_u8, 0xAD, 0xBE, 0xEF];
    assert_eq!(Proof::from_inner(bytes.clone()).into_inner(), bytes);
    assert!(Proof::from_inner(vec![]).into_inner().is_empty());
    assert_eq!(Proof::from_inner(vec![0xFF]).into_inner(), vec![0xFF_u8]);
}

fn key(first: u8, last: u8) -> Key {
    let mut value = [0; 32];
    value[0] = first;
    value[31] = last;
    Key { value }
}

fn action(nullifier: Key, commitment: Key, byte: u8) -> PrivateAction {
    PrivateAction {
        nullifier,
        commitment_root: key(byte, byte),
        commitment,
        encrypted_post_state: EncryptedAccountData { ciphertext: vec![byte], view_tag: byte },
    }
}

#[test]
fn nullifiers_and_commitments_are_listed_in_byte_order() {
    let output = PrivacyPreservingCircuitOutput {
        public_actions: vec![],
        private_actions: vec![
            action(key(2, 0), key(1, 1), 10),
            action(key(0, 9), key(1, 2), 11),
            action(key(2, 1), key(1, 0), 12),
        ],
    };
    let entry = |nullifier: Key, byte: u8| NewNullifier {
        nullifier,
        commitment_root: key(byte, byte),
    };
    assert_eq!(
        output.nullifiers(),
        vec![entry(key(0, 9), 11), entry(key(2, 0), 10), entry(key(2, 1), 12)]
    );
    assert_eq!(output.commitments(), vec![key(1, 0), key(1, 1), key(1, 2)]);
    let (ciphertext, nullifier) = output.sealed_post_state(1);
    assert_eq!(*ciphertext, vec![11]);
    assert_eq!(nullifier, key(0, 9));
}

#[test]
fn an_output_without_private_actions_lists_nothing() {
    let output =
        PrivacyPreservingCircuitOutput { public_actions: vec![], private_actions: vec![] };
    assert!(output.nullifiers().is_empty());
    assert!(output.commitments().is_empty());
}
