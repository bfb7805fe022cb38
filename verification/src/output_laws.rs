//! What is published of private accounts, and in what order.
use crate::bloat::{
    bloats, full_shard, ShardWrite, BLOAT_SHARD_BYTES, BLOAT_WRITERS, MAX_RESPONSE_BYTES,
};
use crate::codec::le_bytes;
use crate::output::{
    bytes_le, commitment_entries, in_key_order, nullifier_entries, publishes, Keyed, NewNullifier,
    PrivacyPreservingCircuitOutput, PrivateAction, Proof, SealedNote,
};
use crate::position::{AccountId, Position};
use crate::program::PdaSeed;
use crate::requests::{derived_spend, one_unit};
use crate::traversal::PrivateNote;
use crate::witness::{Key, WitnessModel};
use vstd::prelude::*;

verus! {

/// Where two byte strings of one length first differ, the smaller byte decides their order, and
/// nothing behind it; strings that come before each other are the same.
pub proof fn law_first_difference_decides(a: Seq<u8>, b: Seq<u8>, k: int)
    requires
        a.len() == b.len(),
    ensures
        0 <= k < a.len() && a.take(k) == b.take(k) && a[k] < b[k] ==> bytes_le(a, b) && !bytes_le(
            b,
            a,
        ),
        bytes_le(a, b) && bytes_le(b, a) <==> a == b,
        bytes_le(a, b) || bytes_le(b, a),
    decreases a.len(),
{
    if a.len() > 0 {
        let x = a.drop_first();
        let y = b.drop_first();
        law_first_difference_decides(x, y, k - 1);
        if 0 < k < a.len() && a.take(k) == b.take(k) {
            assert(a.take(k)[0] == b.take(k)[0]);
            assert(a.first() == b.first());
            assert(x.take(k - 1) =~= a.take(k).drop_first());
            assert(y.take(k - 1) =~= b.take(k).drop_first());
        }
        if a.first() == b.first() && x == y {
            assert(a =~= seq![a.first()] + x);
            assert(b =~= seq![b.first()] + y);
        }
    } else {
        assert(a =~= b);
    }
}

/// Keys are ordered by all of their bytes, and a nullifier by its own key.
pub proof fn law_items_are_ordered_by_their_keys(key: Key, entry: NewNullifier)
    ensures
        key.key() == key.value@,
        entry.key() == entry.nullifier.value@,
{
}

/// In key order no item comes before one with a smaller key.
pub proof fn law_key_order_leaves_none_behind(items: Seq<NewNullifier>, keys: Seq<Key>, i: int, j: int)
    requires
        0 <= i < j,
    ensures
        in_key_order(items) && j < items.len() ==> bytes_le(
            items[i].nullifier.value@,
            items[j].nullifier.value@,
        ),
        in_key_order(keys) && j < keys.len() ==> bytes_le(keys[i].value@, keys[j].value@),
{
    if in_key_order(items) && j < items.len() {
        assert(bytes_le(items[i].key(), items[j].key()));
    }
    if in_key_order(keys) && j < keys.len() {
        assert(bytes_le(keys[i].key(), keys[j].key()));
    }
}

/// Each private action gives its nullifier with its root, and its commitment, one for one.
pub proof fn law_actions_give_their_entries(actions: Seq<PrivateAction>, i: int)
    ensures
        nullifier_entries(actions).len() == actions.len(),
        commitment_entries(actions).len() == actions.len(),
        0 <= i < actions.len() ==> {
            &&& nullifier_entries(actions)[i].nullifier == actions[i].nullifier
            &&& nullifier_entries(actions)[i].commitment_root == actions[i].commitment_root
            &&& commitment_entries(actions)[i] == actions[i].commitment
        },
{
}

/// What is listed is what the actions published, all of it and as often, in the order of the keys.
pub proof fn law_lists_hold_what_was_published(
    output: PrivacyPreservingCircuitOutput,
    nullifiers: Vec<NewNullifier>,
    commitments: Vec<Key>,
    i: int,
    j: int,
)
    requires
        call_ensures(PrivacyPreservingCircuitOutput::nullifiers, (&output,), nullifiers),
        call_ensures(PrivacyPreservingCircuitOutput::commitments, (&output,), commitments),
    ensures
        nullifiers@.len() == output.private_actions@.len(),
        commitments@.len() == output.private_actions@.len(),
        0 <= i < j < nullifiers@.len() ==> bytes_le(
            nullifiers@[i].nullifier.value@,
            nullifiers@[j].nullifier.value@,
        ),
        0 <= i < j < commitments@.len() ==> bytes_le(commitments@[i].value@, commitments@[j].value@),
        0 <= i < output.private_actions@.len() ==> {
            let action = output.private_actions@[i];
            &&& nullifiers@.contains(
                NewNullifier {
                    nullifier: action.nullifier,
                    commitment_root: action.commitment_root,
                },
            )
            &&& commitments@.contains(action.commitment)
        },
{
    broadcast use vstd::seq_lib::group_to_multiset_ensures;

    let actions = output.private_actions@;
    let wanted = nullifier_entries(actions);
    let keys = commitment_entries(actions);
    law_actions_give_their_entries(actions, i);
    assert(nullifiers@.to_multiset().len() == wanted.to_multiset().len());
    assert(commitments@.to_multiset().len() == keys.to_multiset().len());
    if 0 <= i < j {
        law_key_order_leaves_none_behind(nullifiers@, commitments@, i, j);
    }
    if 0 <= i < actions.len() {
        assert(wanted.contains(wanted[i]));
        assert(keys.contains(keys[i]));
        assert(nullifiers@.to_multiset().count(wanted[i]) > 0);
        assert(commitments@.to_multiset().count(keys[i]) > 0);
    }
}

/// A published action is the sealed note, and carries the tag of the note.
pub proof fn law_actions_publish_their_notes(
    action: PrivateAction,
    note: PrivateNote,
    sealed: SealedNote,
)
    ensures
        publishes(action, note, sealed) <==> {
            &&& action.nullifier == sealed.nullifier
            &&& action.commitment_root == sealed.commitment_root
            &&& action.commitment == sealed.commitment
            &&& action.encrypted_post_state.ciphertext@ == sealed.ciphertext@
            &&& action.encrypted_post_state.view_tag == note.view_tag
        },
{
}

/// A proof gives back the bytes that it was made from.
pub proof fn law_proofs_give_back_their_bytes(bytes: Vec<u8>, proof_made: Proof, back: Vec<u8>)
    requires
        call_ensures(Proof::from_inner, (bytes,), proof_made),
        call_ensures(Proof::into_inner, (proof_made,), back),
    ensures
        back@ == bytes@,
{
}

/// A spend names the account that is spent and the recipient, in this order and for their balance
/// alone; the recipient signs, and the spent account where that is declared; the spent account
/// holds one unit and the recipient nothing; one witness comes along; and the instruction is the
/// seed, the amount of one and the transfer program.
pub proof fn law_spends_say_what_they_spend(
    transfer_id: AccountId,
    seed: PdaSeed,
    pda_id: AccountId,
    recipient_id: AccountId,
    witness: WitnessModel,
    declare_authorized: bool,
    id: AccountId,
)
    ensures
        ({
            let input = derived_spend(
                transfer_id,
                seed,
                pda_id,
                recipient_id,
                witness,
                declare_authorized,
            );
            &&& input.positions.len() == 2
            &&& input.positions[0] == (Position { account_id: pda_id, namespace: None })
            &&& input.positions[1] == (Position { account_id: recipient_id, namespace: None })
            &&& input.signers.contains(id) <==> id == recipient_id || (declare_authorized && id
                == pda_id)
            &&& input.public_accounts.contains_key(id) <==> id == pda_id || id == recipient_id
            &&& input.public_accounts[recipient_id].balance == 0
            &&& pda_id != recipient_id ==> input.public_accounts[pda_id].balance == 1
            &&& input.public_accounts.contains_key(id) ==> input.public_accounts[id].nonce.0 == 0
                && forall|ns: AccountId| !input.public_accounts[id].shards.contains_key(ns)
            &&& input.private_witnesses.len() == 1
            &&& input.private_witnesses[0] == witness
            &&& input.instruction_data.len() == 80
            &&& input.instruction_data.take(32) == seed.value@
            &&& input.instruction_data[32] == 1
            &&& forall|k: int| 33 <= k < 48 ==> #[trigger] input.instruction_data[k] == 0
            &&& input.instruction_data.skip(48) == transfer_id.value@
            &&& one_unit().balance == 1 && one_unit().nonce.0 == 0
            &&& forall|ns: AccountId| !one_unit().shards.contains_key(ns)
        }),
{
    let input = derived_spend(transfer_id, seed, pda_id, recipient_id, witness, declare_authorized);
    assert(input.signers[0] == recipient_id);
    if declare_authorized {
        assert(input.signers[1] == pda_id);
    }
    lemma_one_in_sixteen_bytes();
    assert(input.instruction_data.take(32) =~= seed.value@);
    assert(input.instruction_data.skip(48) =~= transfer_id.value@);
    assert forall|k: int| 33 <= k < 48 implies #[trigger] input.instruction_data[k] == 0 by {
        assert(input.instruction_data[k] == le_bytes(1, 16)[k - 32]);
    }
    assert(input.instruction_data[32] == le_bytes(1, 16)[0]);
}

proof fn lemma_zeroes(count: nat)
    ensures
        le_bytes(0, count).len() == count,
        forall|i: int| 0 <= i < count ==> #[trigger] le_bytes(0, count)[i] == 0,
    decreases count,
{
    if count > 0 {
        let rest = le_bytes(0, (count - 1) as nat);
        lemma_zeroes((count - 1) as nat);
        assert(le_bytes(0, count) == seq![0u8] + rest);
        assert forall|i: int| 0 <= i < count implies #[trigger] le_bytes(0, count)[i] == 0 by {
            if i > 0 {
                assert(le_bytes(0, count)[i] == rest[i - 1]);
            }
        }
    }
}

proof fn lemma_one_in_sixteen_bytes()
    ensures
        le_bytes(1, 16).len() == 16,
        le_bytes(1, 16)[0] == 1,
        forall|i: int| 1 <= i < 16 ==> #[trigger] le_bytes(1, 16)[i] == 0,
{
    lemma_zeroes(15);
    assert(le_bytes(1, 16) == seq![1u8] + le_bytes(0, 15));
    assert forall|i: int| 1 <= i < 16 implies #[trigger] le_bytes(1, 16)[i] == 0 by {
        assert(le_bytes(1, 16)[i] == le_bytes(0, 15)[i - 1]);
    }
}

/// A bloating write goes to the writer's own shard at the victim and fills it to the last byte.
pub proof fn law_bloating_writes_fill_a_shard(
    write: ShardWrite,
    victim: AccountId,
    writer: AccountId,
    i: int,
)
    ensures
        BLOAT_SHARD_BYTES == 700 * 1024,
        BLOAT_WRITERS == 4,
        MAX_RESPONSE_BYTES == 10 * 1024 * 1024,
        full_shard().len() == 716_800,
        0 <= i < 716_800 ==> full_shard()[i] == 0xFFu8,
        bloats(write, victim, writer) <==> {
            &&& write.program == writer
            &&& write.position.account_id == victim
            &&& write.position.namespace == Some(writer)
            &&& write.bytes@.len() == 716_800
            &&& forall|k: int| 0 <= k < 716_800 ==> #[trigger] write.bytes@[k] == 0xFFu8
        },
{
    if write.bytes@.len() == 716_800 && forall|k: int|
        0 <= k < 716_800 ==> #[trigger] write.bytes@[k] == 0xFFu8 {
        assert(write.bytes@ =~= full_shard());
    }
}

} // verus!
