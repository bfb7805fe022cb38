//! Witnesses that open private accounts, and the rules that they are held to.
use crate::account::{Account, AccountModel, Nonce};
use crate::error::CircuitRejection;
use crate::position::{same_array, AccountId};
use crate::program::PdaSeed;
use vstd::prelude::*;

verus! {

/// A key or a digest of the private account scheme.
#[derive(Clone, Copy, Debug)]
pub struct Key {
    pub value: [u8; 32],
}

impl PartialEq for Key {
    fn eq(&self, other: &Self) -> (r: bool) {
        same_array(&self.value, &other.value)
    }
}

impl Eq for Key {

}

impl vstd::std_specs::cmp::PartialEqSpecImpl for Key {
    open spec fn obeys_eq_spec() -> bool {
        true
    }

    open spec fn eq_spec(&self, other: &Self) -> bool {
        *self == *other
    }
}

/// A credential, by the keys that it derives: the nullifier secret key, and from that the
/// nullifier public key.
#[derive(Clone, Copy, Debug, PartialEq, Eq)]
pub struct Credential {
    pub nsk: Key,
    pub npk: Key,
}

/// Whose private account a witness opens.
#[derive(Clone, Copy, Debug, PartialEq, Eq)]
pub enum WitnessKind {
    /// A user's. Showing the credential authorizes the account; leaving it out does not.
    Regular { ask: Option<Credential> },
    /// One that a program derives from a seed.
    Pda { program: AccountId, seed: PdaSeed },
}

/// A path from a commitment to the root of the commitment tree.
#[derive(Debug, PartialEq, Eq)]
pub struct MembershipProof {
    pub index: usize,
    pub path: Vec<Key>,
}

/// How a witness retires the state it opens.
#[derive(Debug, PartialEq, Eq)]
pub enum NullifierWitness {
    /// The account is new.
    Init { npk: Key, commitment_root: Key },
    /// The account has a committed state.
    Update { view_tag: u8, nsk: Key, membership_proof: MembershipProof },
}

/// A way to retire a state, as a value.
#[verifier::ext_equal]
pub enum NullifierModel {
    Init { npk: Key, commitment_root: Key },
    Update { view_tag: u8, nsk: Key, index: usize, path: Seq<Key> },
}

impl View for NullifierWitness {
    type V = NullifierModel;

    open spec fn view(&self) -> NullifierModel {
        match self {
            NullifierWitness::Init { npk, commitment_root } => NullifierModel::Init {
                npk: *npk,
                commitment_root: *commitment_root,
            },
            NullifierWitness::Update { view_tag, nsk, membership_proof } => NullifierModel::Update {
                view_tag: *view_tag,
                nsk: *nsk,
                index: membership_proof.index,
                path: membership_proof.path@,
            },
        }
    }
}

/// What the note of a private account says about it.
#[derive(Clone, Copy, Debug, PartialEq, Eq)]
pub enum PrivateAccountKind {
    Regular(u128),
    Pda { account_id: AccountId, seed: PdaSeed, identifier: u128 },
}

/// What the key scheme derives for a private account from its keys, its kind, its identifier and
/// its state.
#[derive(Clone, Copy, Debug, PartialEq, Eq)]
pub struct Derived {
    pub address: AccountId,
    pub view_tag: u8,
    /// The nonce of the first state that is published for the address.
    pub init_nonce: Nonce,
    /// The nonce that follows the one the account is opened with. It says nothing of a new
    /// account, which is opened without the key that advances it.
    pub advanced_nonce: Nonce,
}

/// Opens one private account.
#[derive(Debug, PartialEq, Eq)]
pub struct PrivateWitness {
    pub account: Account,
    pub identifier: u128,
    pub kind: WitnessKind,
    pub nullifier: NullifierWitness,
    pub derived: Derived,
}

/// A witness as a value.
#[verifier::ext_equal]
pub struct WitnessModel {
    pub account: AccountModel,
    pub identifier: u128,
    pub kind: WitnessKind,
    pub nullifier: NullifierModel,
    pub derived: Derived,
}

impl View for PrivateWitness {
    type V = WitnessModel;

    open spec fn view(&self) -> WitnessModel {
        WitnessModel {
            account: self.account@,
            identifier: self.identifier,
            kind: self.kind,
            nullifier: self.nullifier@,
            derived: self.derived,
        }
    }
}

pub open spec fn witnesses_view(witnesses: Seq<PrivateWitness>) -> Seq<WitnessModel> {
    witnesses.map_values(|witness: PrivateWitness| witness@)
}

impl WitnessModel {
    /// The kind that the account's note carries.
    pub open spec fn noted_kind(self) -> PrivateAccountKind {
        match self.kind {
            WitnessKind::Regular { .. } => PrivateAccountKind::Regular(self.identifier),
            WitnessKind::Pda { program, seed } => PrivateAccountKind::Pda {
                account_id: program,
                seed,
                identifier: self.identifier,
            },
        }
    }

    /// The tag that the account's note carries: derived for a new account, as supplied for
    /// one that is updated.
    pub open spec fn noted_view_tag(self) -> u8 {
        match self.nullifier {
            NullifierModel::Init { .. } => self.derived.view_tag,
            NullifierModel::Update { view_tag, .. } => view_tag,
        }
    }

    /// The nonce that the published state carries: the first one for a new account, the one that
    /// follows for one that is updated.
    pub open spec fn noted_nonce(self) -> Nonce {
        match self.nullifier {
            NullifierModel::Init { .. } => self.derived.init_nonce,
            NullifierModel::Update { .. } => self.derived.advanced_nonce,
        }
    }

    /// `program` derives the account from one of `seeds`.
    pub open spec fn derived_by(self, program: AccountId, seeds: Seq<PdaSeed>) -> bool {
        self.kind matches WitnessKind::Pda { program: owner, seed } && owner == program
            && seeds.contains(seed)
    }

    pub open spec fn shows_credential(self) -> bool {
        self.kind matches WitnessKind::Regular { ask } && ask is Some
    }

    /// A credential that is shown derives the keys that the nullifier is made with.
    pub open spec fn credential_chains(self) -> bool {
        match self.kind {
            WitnessKind::Regular { ask: Some(credential) } => match self.nullifier {
                NullifierModel::Init { npk, .. } => credential.npk == npk,
                NullifierModel::Update { nsk, .. } => credential.nsk == nsk,
            },
            _ => true,
        }
    }

    /// What is wrong with the witness in a transaction that touches its account or not and
    /// declares the account authorized or not at its root.
    pub open spec fn rejection(self, touched: bool, declared: bool) -> Option<CircuitRejection> {
        if !touched {
            Some(CircuitRejection::UnmatchedWitness)
        } else {
            match self.kind {
                WitnessKind::Regular { ask } => if declared != ask is Some {
                    Some(CircuitRejection::AuthorizationMismatch)
                } else if !self.credential_chains() {
                    Some(CircuitRejection::CredentialMismatch)
                } else {
                    None
                },
                WitnessKind::Pda { .. } => if declared {
                    Some(CircuitRejection::RootPdaAuthorization)
                } else {
                    None
                },
            }
        }
    }
}

impl PrivateWitness {
    pub fn note_kind(&self) -> (kind: PrivateAccountKind)
        ensures
            kind == self@.noted_kind(),
            self.kind is Regular ==> kind == PrivateAccountKind::Regular(self.identifier),
            self.kind matches WitnessKind::Pda { program, seed } ==> kind == (
            PrivateAccountKind::Pda { account_id: program, seed, identifier: self.identifier }),
    {
        match self.kind {
            WitnessKind::Regular { .. } => PrivateAccountKind::Regular(self.identifier),
            WitnessKind::Pda { program, seed } => PrivateAccountKind::Pda {
                account_id: program,
                seed,
                identifier: self.identifier,
            },
        }
    }

    pub fn note_view_tag(&self) -> (tag: u8)
        ensures
            tag == self@.noted_view_tag(),
            self.nullifier matches NullifierWitness::Update { view_tag, .. } ==> tag == view_tag,
            self.nullifier is Init ==> tag == self.derived.view_tag,
    {
        match &self.nullifier {
            NullifierWitness::Init { .. } => self.derived.view_tag,
            NullifierWitness::Update { view_tag, .. } => *view_tag,
        }
    }

    pub fn note_nonce(&self) -> (nonce: Nonce)
        ensures
            nonce == self@.noted_nonce(),
            self.nullifier is Update ==> nonce == self.derived.advanced_nonce,
            self.nullifier is Init ==> nonce == self.derived.init_nonce,
    {
        match &self.nullifier {
            NullifierWitness::Init { .. } => self.derived.init_nonce,
            NullifierWitness::Update { .. } => self.derived.advanced_nonce,
        }
    }

    /// Says whether `program` derives the account from one of `seeds`.
    pub fn is_derived_by(&self, program: AccountId, seeds: &Vec<PdaSeed>) -> (derived: bool)
        ensures
            derived == self@.derived_by(program, seeds@),
            self.kind is Regular ==> !derived,
            self.kind matches WitnessKind::Pda { program: owner, seed } ==> (derived <==> owner
                == program && exists|i: int| 0 <= i < seeds@.len() && #[trigger] seeds@[i] == seed),
    {
        match self.kind {
            WitnessKind::Regular { .. } => false,
            WitnessKind::Pda { program: owner, seed } => owner == program && contains_seed(
                seeds,
                seed,
            ),
        }
    }

    pub fn has_credential(&self) -> (shown: bool)
        ensures
            shown == self@.shows_credential(),
            shown <==> (self.kind matches WitnessKind::Regular { ask } && ask is Some),
    {
        match self.kind {
            WitnessKind::Regular { ask } => ask.is_some(),
            WitnessKind::Pda { .. } => false,
        }
    }

    /// Holds the witness to the circuit's rules.
    pub fn check(&self, touched: bool, declared: bool) -> (rejection: Option<CircuitRejection>)
        ensures
            rejection == self@.rejection(touched, declared),
            rejection == Some(CircuitRejection::UnmatchedWitness) <==> !touched,
            touched && self.kind is Pda ==> rejection == if declared {
                Some(CircuitRejection::RootPdaAuthorization)
            } else {
                None
            },
            touched && self.kind == (WitnessKind::Regular { ask: None }) ==> rejection
                == if declared {
                Some(CircuitRejection::AuthorizationMismatch)
            } else {
                None
            },
            touched && self.kind is Regular && self.kind->ask is Some && !declared ==> rejection
                == Some(CircuitRejection::AuthorizationMismatch),
            touched && self.kind is Regular && self.kind->ask is Some && declared ==> (rejection
                is None <==> match self.nullifier {
                NullifierWitness::Init { npk, .. } => (self.kind->ask->0).npk == npk,
                NullifierWitness::Update { nsk, .. } => (self.kind->ask->0).nsk == nsk,
            }),
            touched && self.kind is Regular && self.kind->ask is Some && declared && rejection
                is Some ==> rejection == Some(CircuitRejection::CredentialMismatch),
    {
        if !touched {
            return Some(CircuitRejection::UnmatchedWitness);
        }
        match self.kind {
            WitnessKind::Regular { ask } => {
                if declared != ask.is_some() {
                    return Some(CircuitRejection::AuthorizationMismatch);
                }
                if let Some(credential) = ask {
                    let chains = match &self.nullifier {
                        NullifierWitness::Init { npk, .. } => credential.npk == *npk,
                        NullifierWitness::Update { nsk, .. } => credential.nsk == *nsk,
                    };
                    if !chains {
                        return Some(CircuitRejection::CredentialMismatch);
                    }
                }
                None
            },
            WitnessKind::Pda { .. } => if declared {
                Some(CircuitRejection::RootPdaAuthorization)
            } else {
                None
            },
        }
    }
}

/// Says whether `seeds` holds `seed`.
fn contains_seed(seeds: &Vec<PdaSeed>, seed: PdaSeed) -> (found: bool)
    ensures
        found == seeds@.contains(seed),
{
    let mut i: usize = 0;
    while i < seeds.len()
        invariant
            i <= seeds@.len(),
            forall|j: int| 0 <= j < i ==> seeds@[j] != seed,
        decreases seeds.len() - i,
    {
        if same_array(&seeds[i].value, &seed.value) {
            assert(seeds@[i as int] == seed);
            return true;
        }
        i = i + 1;
    }
    false
}

/// The private accounts that `program` derives from `seeds`, in the order of their witnesses.
pub open spec fn private_grants(
    witnesses: Seq<WitnessModel>,
    program: AccountId,
    seeds: Seq<PdaSeed>,
) -> Seq<AccountId>
    decreases witnesses.len(),
{
    if witnesses.len() == 0 {
        Seq::empty()
    } else {
        let before = private_grants(witnesses.drop_last(), program, seeds);
        if witnesses.last().derived_by(program, seeds) {
            before.push(witnesses.last().derived.address)
        } else {
            before
        }
    }
}

/// A private account is granted exactly where a witness of it names the program and one of the
/// seeds.
pub proof fn law_grants_are_what_witnesses_name(
    witnesses: Seq<WitnessModel>,
    program: AccountId,
    seeds: Seq<PdaSeed>,
    id: AccountId,
)
    ensures
        private_grants(witnesses, program, seeds).contains(id) <==> exists|i: int|
            0 <= i < witnesses.len() && (#[trigger] witnesses[i]).derived_by(program, seeds)
                && witnesses[i].derived.address == id,
    decreases witnesses.len(),
{
    if witnesses.len() > 0 {
        let rest = witnesses.drop_last();
        let last = witnesses.last();
        let before = private_grants(rest, program, seeds);
        let now = private_grants(witnesses, program, seeds);
        law_grants_are_what_witnesses_name(rest, program, seeds, id);
        if before.contains(id) {
            assert(now[before.index_of(id)] == id);
            let i = choose|i: int|
                0 <= i < rest.len() && (#[trigger] rest[i]).derived_by(program, seeds)
                    && rest[i].derived.address == id;
            assert(witnesses[i].derived_by(program, seeds));
        }
        if last.derived_by(program, seeds) && last.derived.address == id {
            assert(now[now.len() - 1] == id);
            assert(witnesses[witnesses.len() - 1].derived_by(program, seeds));
        }
        if now.contains(id) && !before.contains(id) {
            let k = now.index_of(id);
            assert(k == before.len());
        }
        if exists|i: int|
            0 <= i < witnesses.len() && (#[trigger] witnesses[i]).derived_by(program, seeds)
                && witnesses[i].derived.address == id {
            let i = choose|i: int|
                0 <= i < witnesses.len() && (#[trigger] witnesses[i]).derived_by(program, seeds)
                    && witnesses[i].derived.address == id;
            if i < rest.len() {
                assert(rest[i].derived_by(program, seeds));
            }
        }
    }
}

/// The private accounts that `program` derives from `seeds`, and that its calls under those
/// seeds may act for.
pub fn granted_by(
    witnesses: &Vec<PrivateWitness>,
    program: AccountId,
    seeds: &Vec<PdaSeed>,
) -> (ids: Vec<AccountId>)
    ensures
        ids@ == private_grants(witnesses_view(witnesses@), program, seeds@),
        forall|id: AccountId| #[trigger]
            ids@.contains(id) <==> exists|i: int|
                0 <= i < witnesses@.len() && (#[trigger] witnesses@[i])@.derived_by(program, seeds@)
                    && witnesses@[i].derived.address == id,
{
    let ghost models = witnesses_view(witnesses@);
    let mut ids: Vec<AccountId> = Vec::new();
    let mut i: usize = 0;
    assert(models.take(0) =~= Seq::empty());
    while i < witnesses.len()
        invariant
            i <= witnesses@.len(),
            models == witnesses_view(witnesses@),
            ids@ == private_grants(models.take(i as int), program, seeds@),
        decreases witnesses.len() - i,
    {
        let witness = &witnesses[i];
        assert(models.take(i + 1).drop_last() =~= models.take(i as int));
        assert(models.take(i + 1).last() == witness@);
        if witness.is_derived_by(program, seeds) {
            ids.push(witness.derived.address);
        }
        i = i + 1;
    }
    proof {
        assert(models.take(i as int) =~= models);
        assert forall|id: AccountId| #[trigger] ids@.contains(id) <==> exists|i: int|
            0 <= i < witnesses@.len() && (#[trigger] witnesses@[i])@.derived_by(program, seeds@)
                && witnesses@[i].derived.address == id by {
            law_grants_are_what_witnesses_name(models, program, seeds@, id);
            if ids@.contains(id) {
                let k = choose|k: int|
                    0 <= k < models.len() && (#[trigger] models[k]).derived_by(program, seeds@)
                        && models[k].derived.address == id;
                assert(witnesses@[k]@ == models[k]);
            }
            if exists|i: int|
                0 <= i < witnesses@.len() && (#[trigger] witnesses@[i])@.derived_by(program, seeds@)
                    && witnesses@[i].derived.address == id {
                let k = choose|i: int|
                    0 <= i < witnesses@.len() && (#[trigger] witnesses@[i])@.derived_by(
                        program,
                        seeds@,
                    ) && witnesses@[i].derived.address == id;
                assert(models[k] == witnesses@[k]@);
            }
        }
    }
    ids
}

} // verus!
