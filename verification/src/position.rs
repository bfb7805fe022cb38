//! Account addresses and the positions inside accounts.
use vstd::prelude::*;

verus! {

/// Says whether two arrays hold the same bytes.
pub fn same_array(a: &[u8; 32], b: &[u8; 32]) -> (same: bool)
    ensures
        same == (*a == *b),
{
    let mut i: usize = 0;
    while i < 32
        invariant
            i <= 32,
            forall|j: int| 0 <= j < i ==> a@[j] == b@[j],
        decreases 32 - i,
    {
        if a[i] != b[i] {
            return false;
        }
        i = i + 1;
    }
    assert(*a =~= *b);
    true
}

/// Address of an account. Programs live at accounts too, so the same type names a program
/// and the namespace that program writes to.
#[derive(Clone, Copy, Debug)]
pub struct AccountId {
    pub value: [u8; 32],
}

impl AccountId {
    pub fn new(value: [u8; 32]) -> (id: Self)
        ensures
            id.value == value,
    {
        AccountId { value }
    }
}

impl PartialEq for AccountId {
    fn eq(&self, other: &Self) -> (r: bool) {
        same_array(&self.value, &other.value)
    }
}

impl Eq for AccountId {

}

impl vstd::std_specs::cmp::PartialEqSpecImpl for AccountId {
    open spec fn obeys_eq_spec() -> bool {
        true
    }

    open spec fn eq_spec(&self, other: &Self) -> bool {
        *self == *other
    }
}

/// One place in an account: its balance alone, or its balance with the shard that one
/// program keeps there.
#[derive(Clone, Copy, Debug)]
pub struct Position {
    pub account_id: AccountId,
    pub namespace: Option<AccountId>,
}

impl Position {
    /// The shard of `namespace` at `account_id`.
    pub fn new(account_id: AccountId, namespace: AccountId) -> (position: Self)
        ensures
            position == (Position { account_id, namespace: Some(namespace) }),
    {
        Position { account_id, namespace: Some(namespace) }
    }

    /// The balance of `account_id` and no shard.
    pub fn balance_only(account_id: AccountId) -> (position: Self)
        ensures
            position == (Position { account_id, namespace: None }),
    {
        Position { account_id, namespace: None }
    }
}

impl PartialEq for Position {
    fn eq(&self, other: &Self) -> (r: bool) {
        self.account_id == other.account_id && self.namespace == other.namespace
    }
}

impl Eq for Position {

}

impl vstd::std_specs::cmp::PartialEqSpecImpl for Position {
    open spec fn obeys_eq_spec() -> bool {
        true
    }

    open spec fn eq_spec(&self, other: &Self) -> bool {
        *self == *other
    }
}

/// Says whether `ids` holds `id`.
pub fn contains_id(ids: &Vec<AccountId>, id: AccountId) -> (found: bool)
    ensures
        found == ids@.contains(id),
{
    let mut i: usize = 0;
    while i < ids.len()
        invariant
            i <= ids.len(),
            forall|j: int| 0 <= j < i ==> ids@[j] != id,
        decreases ids.len() - i,
    {
        if ids[i] == id {
            return true;
        }
        i = i + 1;
    }
    false
}

/// Says whether `positions` holds `position`.
pub fn contains_position(positions: &Vec<Position>, position: Position) -> (found: bool)
    ensures
        found == positions@.contains(position),
{
    let mut i: usize = 0;
    while i < positions.len()
        invariant
            i <= positions.len(),
            forall|j: int| 0 <= j < i ==> positions@[j] != position,
        decreases positions.len() - i,
    {
        if positions[i] == position {
            return true;
        }
        i = i + 1;
    }
    false
}

} // verus!
