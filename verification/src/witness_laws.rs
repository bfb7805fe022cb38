//! What witnesses say of the accounts they open, and what they are held to.
use crate::error::CircuitRejection;
use crate::position::AccountId;
use crate::program::PdaSeed;
use crate::witness::{
    law_grants_are_what_witnesses_name, private_grants, witnesses_view, Credential,
    NullifierModel, NullifierWitness, PrivateAccountKind, PrivateWitness, WitnessKind,
    WitnessModel,
};
use vstd::prelude::*;

verus! {

/// A witness counts with each of its fields, the account and the membership path whole.
pub proof fn law_witnesses_count_whole(witness: PrivateWitness)
    ensures
        witness@.account == witness.account@,
        witness@.identifier == witness.identifier,
        witness@.kind == witness.kind,
        witness@.derived == witness.derived,
        witness.nullifier matches NullifierWitness::Init { npk, commitment_root }
            ==> witness@.nullifier == (NullifierModel::Init { npk, commitment_root }),
        witness.nullifier matches NullifierWitness::Update { view_tag, nsk, membership_proof }
            ==> witness@.nullifier == (NullifierModel::Update {
            view_tag,
            nsk,
            index: membership_proof.index,
            path: membership_proof.path@,
        }),
{
}

/// Witnesses in a row count one for one, in their order.
pub proof fn law_witness_rows_count_one_for_one(witnesses: Seq<PrivateWitness>, i: int)
    ensures
        witnesses_view(witnesses).len() == witnesses.len(),
        0 <= i < witnesses.len() ==> witnesses_view(witnesses)[i] == witnesses[i]@,
{
}

/// A witness of an account that the transaction does not touch is rejected as such, whatever it
/// shows, and only such a witness is.
pub proof fn law_only_untouched_witnesses_are_unmatched(
    witness: WitnessModel,
    touched: bool,
    declared: bool,
)
    ensures
        witness.rejection(touched, declared) == Some(CircuitRejection::UnmatchedWitness)
            <==> !touched,
{
}

/// A witness that shows a credential, for an account that is touched and declared, is accepted
/// exactly where the credential's key is the nullifier's: the secret key for a state that is
/// updated, the public key for a new account. Nothing else about the witness matters.
pub proof fn law_credentials_count_by_their_keys(witness: WitnessModel, credential: Credential)
    requires
        witness.kind == (WitnessKind::Regular { ask: Some(credential) }),
    ensures
        witness.nullifier matches NullifierModel::Update { nsk, .. } ==> (witness.rejection(
            true,
            true,
        ) is None <==> credential.nsk == nsk),
        witness.nullifier matches NullifierModel::Init { npk, .. } ==> (witness.rejection(
            true,
            true,
        ) is None <==> credential.npk == npk),
        witness.rejection(true, true) is Some ==> witness.rejection(true, true) == Some(
            CircuitRejection::CredentialMismatch,
        ),
        witness.rejection(true, false) == Some(CircuitRejection::AuthorizationMismatch),
{
}

/// The path by which a state is found committed, the tag of its note, the account's state and
/// what is derived for it have no say in whether its witness is accepted.
pub proof fn law_paths_and_states_have_no_say(
    a: WitnessModel,
    b: WitnessModel,
    touched: bool,
    declared: bool,
)
    requires
        a.kind == b.kind,
        ({
            ||| a.nullifier is Update && b.nullifier is Update && a.nullifier->nsk
                == b.nullifier->nsk
            ||| a.nullifier is Init && b.nullifier is Init && a.nullifier->npk
                == b.nullifier->npk
        }),
    ensures
        a.rejection(touched, declared) == b.rejection(touched, declared),
{
}

/// Without a credential a regular account passes exactly where it is not declared authorized; so
/// does an account that a program derives.
pub proof fn law_without_credential_nothing_may_be_declared(witness: WitnessModel, declared: bool)
    ensures
        witness.kind == (WitnessKind::Regular { ask: None }) ==> witness.rejection(true, declared)
            == if declared {
            Some(CircuitRejection::AuthorizationMismatch)
        } else {
            None
        },
        witness.kind is Pda ==> witness.rejection(true, declared) == if declared {
            Some(CircuitRejection::RootPdaAuthorization)
        } else {
            None
        },
        witness.shows_credential() <==> exists|credential: Credential|
            witness.kind == (WitnessKind::Regular { ask: Some(credential) }),
{
    if witness.shows_credential() {
        let credential = (witness.kind->ask)->0;
        assert(witness.kind == (WitnessKind::Regular { ask: Some(credential) }));
    }
}

/// Checking a witness by its fields: an own credential is never refused, and a foreign one always
/// is.
pub proof fn law_own_credentials_are_never_refused(
    witness: PrivateWitness,
    credential: Credential,
    verdict: Option<CircuitRejection>,
)
    requires
        call_ensures(PrivateWitness::check, (&witness, true, true), verdict),
        witness.kind == (WitnessKind::Regular { ask: Some(credential) }),
    ensures
        witness.nullifier matches NullifierWitness::Update { nsk, .. } ==> (verdict is None
            <==> nsk == credential.nsk),
        witness.nullifier matches NullifierWitness::Init { npk, .. } ==> (verdict is None <==> npk
            == credential.npk),
{
}

/// The kind in a note names the identifier and, for an account that a program derives, the
/// program and the seed; it says nothing else.
pub proof fn law_notes_name_kind_and_identifier(witness: WitnessModel)
    ensures
        witness.kind is Regular ==> witness.noted_kind() == PrivateAccountKind::Regular(
            witness.identifier,
        ),
        witness.kind matches WitnessKind::Pda { program, seed } ==> witness.noted_kind() == (
        PrivateAccountKind::Pda { account_id: program, seed, identifier: witness.identifier }),
{
}

/// The tag of a note is the supplied one where a state is updated and the derived one where an
/// account is new, whatever the kind of the account; likewise its nonce.
pub proof fn law_notes_carry_tag_and_nonce(witness: WitnessModel)
    ensures
        witness.nullifier matches NullifierModel::Update { view_tag, .. } ==> {
            &&& witness.noted_view_tag() == view_tag
            &&& witness.noted_nonce() == witness.derived.advanced_nonce
        },
        witness.nullifier is Init ==> {
            &&& witness.noted_view_tag() == witness.derived.view_tag
            &&& witness.noted_nonce() == witness.derived.init_nonce
        },
{
}

/// A program derives an account exactly where the account's witness names that program and one of
/// the seeds at hand.
pub proof fn law_programs_derive_what_witnesses_name(
    witness: WitnessModel,
    program: AccountId,
    seeds: Seq<PdaSeed>,
)
    ensures
        witness.derived_by(program, seeds) <==> exists|i: int|
            0 <= i < seeds.len() && witness.kind == (WitnessKind::Pda {
                program,
                seed: #[trigger] seeds[i],
            }),
{
    if witness.derived_by(program, seeds) {
        let seed = witness.kind->seed;
        let i = seeds.index_of(seed);
        assert(witness.kind == (WitnessKind::Pda { program, seed: seeds[i] }));
    }
}

/// Seeds that are added add grants and take none away.
pub proof fn law_more_seeds_grant_no_less(
    witnesses: Seq<WitnessModel>,
    program: AccountId,
    few: Seq<PdaSeed>,
    many: Seq<PdaSeed>,
    id: AccountId,
)
    requires
        forall|seed: PdaSeed| #[trigger] few.contains(seed) ==> many.contains(seed),
        private_grants(witnesses, program, few).contains(id),
    ensures
        private_grants(witnesses, program, many).contains(id),
{
    law_grants_are_what_witnesses_name(witnesses, program, few, id);
    law_grants_are_what_witnesses_name(witnesses, program, many, id);
    let i = choose|i: int|
        0 <= i < witnesses.len() && (#[trigger] witnesses[i]).derived_by(program, few)
            && witnesses[i].derived.address == id;
    assert(witnesses[i].derived_by(program, many));
}

/// Grants come in the order of the witnesses, one for each witness that names the program and one
/// of the seeds.
pub proof fn law_grants_come_in_the_order_of_witnesses(
    witnesses: Seq<WitnessModel>,
    next: WitnessModel,
    program: AccountId,
    seeds: Seq<PdaSeed>,
)
    ensures
        private_grants(Seq::empty(), program, seeds).len() == 0,
        private_grants(witnesses.push(next), program, seeds) == if next.kind is Pda
            && next.kind->program == program && seeds.contains(next.kind->seed) {
            private_grants(witnesses, program, seeds).push(next.derived.address)
        } else {
            private_grants(witnesses, program, seeds)
        },
{
    assert(witnesses.push(next).drop_last() =~= witnesses);
}

} // verus!
