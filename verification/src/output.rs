//! Proofs, and the output that a proof is about.
use crate::data::copy_bytes;
use crate::traversal::{Journal, PrivateNote, PublicAction};
use crate::witness::Key;
use vstd::prelude::*;

verus! {

/// A proof, as the bytes it travels in.
#[derive(Debug, PartialEq, Eq)]
pub struct Proof {
    inner: Vec<u8>,
}

impl View for Proof {
    type V = Seq<u8>;

    closed spec fn view(&self) -> Seq<u8> {
        self.inner@
    }
}

impl Proof {
    pub fn from_inner(inner: Vec<u8>) -> (proof: Self)
        ensures
            proof@ == inner@,
    {
        Proof { inner }
    }

    /// The bytes that the proof was made from.
    pub fn into_inner(self) -> (inner: Vec<u8>)
        ensures
            inner@ == self@,
    {
        self.inner
    }
}

/// Byte strings in lexicographic order.
pub open spec fn bytes_le(a: Seq<u8>, b: Seq<u8>) -> bool
    decreases a.len(),
{
    if a.len() == 0 {
        true
    } else if b.len() == 0 {
        false
    } else if a.first() != b.first() {
        a.first() < b.first()
    } else {
        bytes_le(a.drop_first(), b.drop_first())
    }
}

proof fn lemma_bytes_le_total(a: Seq<u8>, b: Seq<u8>)
    ensures
        bytes_le(a, b) || bytes_le(b, a),
    decreases a.len(),
{
    if a.len() > 0 && b.len() > 0 && a.first() == b.first() {
        lemma_bytes_le_total(a.drop_first(), b.drop_first());
    }
}

proof fn lemma_bytes_le_transitive(a: Seq<u8>, b: Seq<u8>, c: Seq<u8>)
    requires
        bytes_le(a, b),
        bytes_le(b, c),
    ensures
        bytes_le(a, c),
    decreases a.len(),
{
    if a.len() > 0 && a.first() == b.first() && b.first() == c.first() {
        lemma_bytes_le_transitive(a.drop_first(), b.drop_first(), c.drop_first());
    }
}

/// Compares two keys byte by byte.
fn key_le(a: &Key, b: &Key) -> (le: bool)
    ensures
        le == bytes_le(a.value@, b.value@),
{
    let mut i: usize = 0;
    assert(a.value@.skip(0) =~= a.value@);
    assert(b.value@.skip(0) =~= b.value@);
    while i < 32
        invariant
            i <= 32,
            bytes_le(a.value@, b.value@) == bytes_le(
                a.value@.skip(i as int),
                b.value@.skip(i as int),
            ),
        decreases 32 - i,
    {
        assert(a.value@.skip(i as int).first() == a.value@[i as int]);
        assert(b.value@.skip(i as int).first() == b.value@[i as int]);
        assert(a.value@.skip(i as int).drop_first() =~= a.value@.skip(i + 1));
        assert(b.value@.skip(i as int).drop_first() =~= b.value@.skip(i + 1));
        if a.value[i] != b.value[i] {
            return a.value[i] < b.value[i];
        }
        i = i + 1;
    }
    true
}

/// An item with a key that orders it.
pub trait Keyed: Copy {
    spec fn key(self) -> Seq<u8>;

    fn key_ref(&self) -> (key: &Key)
        ensures
            key.value@ == self.key(),
    ;
}

impl Keyed for Key {
    open spec fn key(self) -> Seq<u8> {
        self.value@
    }

    fn key_ref(&self) -> (key: &Key) {
        self
    }
}

/// A nullifier with the commitment root that it was made against.
#[derive(Clone, Copy, Debug, PartialEq, Eq)]
pub struct NewNullifier {
    pub nullifier: Key,
    pub commitment_root: Key,
}

impl Keyed for NewNullifier {
    open spec fn key(self) -> Seq<u8> {
        self.nullifier.value@
    }

    fn key_ref(&self) -> (key: &Key) {
        &self.nullifier
    }
}

/// Items in the byte order of their keys.
pub open spec fn in_key_order<T: Keyed>(items: Seq<T>) -> bool {
    forall|i: int, j: int|
        #![trigger items[i], items[j]]
        0 <= i <= j < items.len() ==> bytes_le(items[i].key(), items[j].key())
}

/// Puts `item` behind every item that it does not precede.
fn insert_in_order<T: Keyed>(items: &mut Vec<T>, item: T)
    requires
        in_key_order(old(items)@),
    ensures
        in_key_order(final(items)@),
        final(items)@.to_multiset() == old(items)@.to_multiset().insert(item),
{
    let mut at: usize = 0;
    while at < items.len() && key_le(items[at].key_ref(), item.key_ref())
        invariant
            at <= items@.len(),
            items@ == old(items)@,
            forall|i: int| 0 <= i < at ==> bytes_le((#[trigger] items@[i]).key(), item.key()),
        decreases items.len() - at,
    {
        at = at + 1;
    }
    let ghost before = items@;
    items.insert(at, item);
    proof {
        broadcast use vstd::seq_lib::group_to_multiset_ensures;

        assert(items@ =~= before.insert(at as int, item));
        assert forall|i: int, j: int|
            #![trigger items@[i], items@[j]]
            0 <= i <= j < items@.len() implies bytes_le(items@[i].key(), items@[j].key()) by {
            if at < before.len() {
                lemma_bytes_le_total(before[at as int].key(), item.key());
            }
            if i == j {
                lemma_bytes_le_total(items@[i].key(), items@[i].key());
            } else if j < at {
                assert(before[i] == items@[i] && before[j] == items@[j]);
            } else if j == at {
                assert(before[i] == items@[i]);
            } else if i == at {
                assert(before[j - 1] == items@[j]);
                assert(bytes_le(before[at as int].key(), before[j - 1].key()));
                lemma_bytes_le_transitive(
                    item.key(),
                    before[at as int].key(),
                    before[j - 1].key(),
                );
            } else if i < at {
                assert(before[i] == items@[i] && before[j - 1] == items@[j]);
            } else {
                assert(before[i - 1] == items@[i] && before[j - 1] == items@[j]);
            }
        }
    }
}

/// Sorts items by their keys.
fn sort_by_key<T: Keyed>(items: &Vec<T>) -> (sorted: Vec<T>)
    ensures
        in_key_order(sorted@),
        sorted@.to_multiset() == items@.to_multiset(),
{
    let mut sorted: Vec<T> = Vec::new();
    let mut i: usize = 0;
    assert(items@.take(0) =~= Seq::empty());
    while i < items.len()
        invariant
            i <= items@.len(),
            in_key_order(sorted@),
            sorted@.to_multiset() == items@.take(i as int).to_multiset(),
        decreases items.len() - i,
    {
        insert_in_order(&mut sorted, items[i]);
        proof {
            broadcast use vstd::seq_lib::group_to_multiset_ensures;

            assert(items@.take(i + 1) =~= items@.take(i as int).push(items@[i as int]));
        }
        i = i + 1;
    }
    assert(items@.take(i as int) =~= items@);
    sorted
}

/// The sealed state of a private account.
#[derive(Debug, PartialEq, Eq)]
pub struct EncryptedAccountData {
    pub ciphertext: Vec<u8>,
    pub view_tag: u8,
}

/// What a transaction publishes for one private account.
#[derive(Debug, PartialEq, Eq)]
pub struct PrivateAction {
    pub nullifier: Key,
    pub commitment_root: Key,
    pub commitment: Key,
    pub encrypted_post_state: EncryptedAccountData,
}

/// The public output of a proven transaction.
#[derive(Debug, PartialEq, Eq)]
pub struct PrivacyPreservingCircuitOutput {
    pub public_actions: Vec<PublicAction>,
    pub private_actions: Vec<PrivateAction>,
}

/// What sealing one note yields.
#[derive(Debug)]
pub struct SealedNote {
    pub nullifier: Key,
    pub commitment_root: Key,
    pub commitment: Key,
    pub ciphertext: Vec<u8>,
}

/// The nullifiers of `actions` with their roots.
pub open spec fn nullifier_entries(actions: Seq<PrivateAction>) -> Seq<NewNullifier> {
    actions.map_values(
        |action: PrivateAction|
            NewNullifier { nullifier: action.nullifier, commitment_root: action.commitment_root },
    )
}

pub open spec fn commitment_entries(actions: Seq<PrivateAction>) -> Seq<Key> {
    actions.map_values(|action: PrivateAction| action.commitment)
}

/// `action` publishes what sealing made of `note`.
pub open spec fn publishes(action: PrivateAction, note: PrivateNote, sealed: SealedNote) -> bool {
    &&& action.nullifier == sealed.nullifier
    &&& action.commitment_root == sealed.commitment_root
    &&& action.commitment == sealed.commitment
    &&& action.encrypted_post_state.ciphertext@ == sealed.ciphertext@
    &&& action.encrypted_post_state.view_tag == note.view_tag
}

impl PrivacyPreservingCircuitOutput {
    /// Puts a journal and its sealed notes together. The tag of each note is the journal's.
    pub fn seal(journal: Journal, sealed: &Vec<SealedNote>) -> (output: Self)
        requires
            sealed@.len() == journal.private_notes@.len(),
        ensures
            output.public_actions == journal.public_actions,
            output.private_actions@.len() == sealed@.len(),
            forall|i: int|
                0 <= i < sealed@.len() ==> publishes(
                    #[trigger] output.private_actions@[i],
                    journal.private_notes@[i],
                    sealed@[i],
                ),
            forall|i: int|
                0 <= i < sealed@.len() ==> {
                    let action = #[trigger] output.private_actions@[i];
                    &&& action.nullifier == sealed@[i].nullifier
                    &&& action.commitment_root == sealed@[i].commitment_root
                    &&& action.commitment == sealed@[i].commitment
                    &&& action.encrypted_post_state.ciphertext@ == sealed@[i].ciphertext@
                    &&& action.encrypted_post_state.view_tag == journal.private_notes@[i].view_tag
                },
    {
        let mut private_actions: Vec<PrivateAction> = Vec::new();
        let mut i: usize = 0;
        while i < sealed.len()
            invariant
                i <= sealed@.len(),
                sealed@.len() == journal.private_notes@.len(),
                private_actions@.len() == i,
                forall|j: int|
                    0 <= j < i ==> publishes(
                        #[trigger] private_actions@[j],
                        journal.private_notes@[j],
                        sealed@[j],
                    ),
                forall|j: int|
                    0 <= j < i ==> {
                        let action = #[trigger] private_actions@[j];
                        &&& action.nullifier == sealed@[j].nullifier
                        &&& action.commitment_root == sealed@[j].commitment_root
                        &&& action.commitment == sealed@[j].commitment
                        &&& action.encrypted_post_state.ciphertext@ == sealed@[j].ciphertext@
                        &&& action.encrypted_post_state.view_tag
                            == journal.private_notes@[j].view_tag
                    },
            decreases sealed.len() - i,
        {
            let note = &sealed[i];
            let encrypted_post_state = EncryptedAccountData {
                ciphertext: copy_bytes(&note.ciphertext),
                view_tag: journal.private_notes[i].view_tag,
            };
            private_actions.push(
                PrivateAction {
                    nullifier: note.nullifier,
                    commitment_root: note.commitment_root,
                    commitment: note.commitment,
                    encrypted_post_state,
                },
            );
            i = i + 1;
        }
        PrivacyPreservingCircuitOutput { public_actions: journal.public_actions, private_actions }
    }

    /// The nullifiers with their roots, in the byte order of the nullifiers.
    pub fn nullifiers(&self) -> (sorted: Vec<NewNullifier>)
        ensures
            in_key_order(sorted@),
            sorted@.to_multiset() == nullifier_entries(self.private_actions@).to_multiset(),
    {
        let mut all: Vec<NewNullifier> = Vec::new();
        let mut i: usize = 0;
        while i < self.private_actions.len()
            invariant
                i <= self.private_actions@.len(),
                all@ == nullifier_entries(self.private_actions@).take(i as int),
            decreases self.private_actions.len() - i,
        {
            let action = &self.private_actions[i];
            all.push(
                NewNullifier {
                    nullifier: action.nullifier,
                    commitment_root: action.commitment_root,
                },
            );
            i = i + 1;
            assert(all@ =~= nullifier_entries(self.private_actions@).take(i as int));
        }
        assert(all@ =~= nullifier_entries(self.private_actions@));
        sort_by_key(&all)
    }

    /// The commitments in byte order.
    pub fn commitments(&self) -> (sorted: Vec<Key>)
        ensures
            in_key_order(sorted@),
            sorted@.to_multiset() == commitment_entries(self.private_actions@).to_multiset(),
    {
        let mut all: Vec<Key> = Vec::new();
        let mut i: usize = 0;
        while i < self.private_actions.len()
            invariant
                i <= self.private_actions@.len(),
                all@ == commitment_entries(self.private_actions@).take(i as int),
            decreases self.private_actions.len() - i,
        {
            all.push(self.private_actions[i].commitment);
            i = i + 1;
            assert(all@ =~= commitment_entries(self.private_actions@).take(i as int));
        }
        assert(all@ =~= commitment_entries(self.private_actions@));
        sort_by_key(&all)
    }

    /// What there is to decrypt of the private action at `index`: the ciphertext, and the
    /// nullifier that goes with it.
    pub fn sealed_post_state(&self, index: usize) -> (sealed: (&Vec<u8>, Key))
        requires
            index < self.private_actions@.len(),
        ensures
            sealed.0@ == self.private_actions@[index as int].encrypted_post_state.ciphertext@,
            sealed.1 == self.private_actions@[index as int].nullifier,
    {
        let action = &self.private_actions[index];
        (&action.encrypted_post_state.ciphertext, action.nullifier)
    }
}

} // verus!
