//! What accounts hold, and what reading and writing them comes to.
use crate::account::{
    account_in, balance_in, shard_in, world_with_balance, world_with_shard, Account, AccountModel,
    AccountView, Nonce, World,
};
use crate::data::Data;
use crate::position::{AccountId, Position};
use vstd::prelude::*;

verus! {

/// An account counts with the balance, the nonce and every shard that it holds, each to the last
/// byte, and with no other.
pub proof fn law_accounts_count_whole(account: Account, namespace: AccountId)
    ensures
        account@.balance == account.balance,
        account@.nonce == account.nonce,
        account@.shards.contains_key(namespace) <==> account.shards@.contains_key(namespace),
        account.shards@.contains_key(namespace) ==> account@.shards[namespace]
            == account.shards@[namespace]@,
{
}

/// A view counts with the balance and every shard that it holds, and with no other.
pub proof fn law_views_count_whole(view: AccountView, namespace: AccountId)
    ensures
        view@.balance == view.balance,
        view@.shards.contains_key(namespace) <==> view.shards@.contains_key(namespace),
        view.shards@.contains_key(namespace) ==> view@.shards[namespace]
            == view.shards@[namespace]@,
{
}

/// A set of accounts counts with each account that it holds, and with no other.
pub proof fn law_worlds_count_whole(world: World, id: AccountId)
    ensures
        world@.contains_key(id) <==> world.accounts@.contains_key(id),
        world.accounts@.contains_key(id) ==> world@[id] == world.accounts@[id]@,
{
}

/// An account that nothing ever touched holds nothing.
pub proof fn law_untouched_accounts_hold_nothing(namespace: AccountId)
    ensures
        AccountModel::untouched().balance == 0,
        AccountModel::untouched().nonce.0 == 0,
        !AccountModel::untouched().shards.contains_key(namespace),
        AccountModel::untouched().shard(namespace).len() == 0,
{
}

/// A shard reads as it is held, and as no bytes where it is not held.
pub proof fn law_shards_read_as_held(account: AccountModel, namespace: AccountId)
    ensures
        account.shards.contains_key(namespace) ==> account.shard(namespace)
            == account.shards[namespace],
        !account.shards.contains_key(namespace) ==> account.shard(namespace).len() == 0,
{
}

/// A shard reads back byte for byte as it was written last; nothing else changes.
pub proof fn law_shards_read_back_as_written(
    account: AccountModel,
    namespace: AccountId,
    bytes: Seq<u8>,
    other: AccountId,
)
    ensures
        ({
            let after = account.with_shard(namespace, bytes);
            &&& after.shard(namespace).len() == bytes.len()
            &&& forall|i: int|
                0 <= i < bytes.len() ==> #[trigger] after.shard(namespace)[i] == bytes[i]
            &&& after.shards.contains_key(namespace)
            &&& other != namespace ==> after.shard(other) == account.shard(other)
            &&& other != namespace ==> (after.shards.contains_key(other)
                <==> account.shards.contains_key(other))
            &&& after.balance == account.balance
            &&& after.nonce == account.nonce
        }),
{
}

/// A nonce that is set is the account's; nothing else changes.
pub proof fn law_nonces_are_set_alone(account: AccountModel, nonce: Nonce)
    ensures
        account.with_nonce(nonce).nonce == nonce,
        account.with_nonce(nonce).balance == account.balance,
        account.with_nonce(nonce).shards == account.shards,
{
}

/// An account of a set is found as it is held, with its balance and each of its shards; one that
/// is not held is found with nothing. Of a balance alone there are no bytes.
pub proof fn law_accounts_are_found_as_held(
    world: Map<AccountId, AccountModel>,
    id: AccountId,
    namespace: AccountId,
)
    ensures
        world.contains_key(id) ==> account_in(world, id) == world[id],
        !world.contains_key(id) ==> account_in(world, id).balance == 0 && account_in(
            world,
            id,
        ).nonce.0 == 0 && forall|ns: AccountId| !account_in(world, id).shards.contains_key(ns),
        world.contains_key(id) ==> balance_in(world, id) == world[id].balance,
        !world.contains_key(id) ==> balance_in(world, id) == 0,
        world.contains_key(id) && world[id].shards.contains_key(namespace) ==> shard_in(
            world,
            Position { account_id: id, namespace: Some(namespace) },
        ) == world[id].shards[namespace],
        !(world.contains_key(id) && world[id].shards.contains_key(namespace)) ==> shard_in(
            world,
            Position { account_id: id, namespace: Some(namespace) },
        ).len() == 0,
        shard_in(world, Position { account_id: id, namespace: None }).len() == 0,
{
}

/// Writing at a position changes what is held there, to exactly the bytes written, and nothing
/// else of any account. Where a position names no namespace there is nothing to write.
pub proof fn law_writes_change_one_shard(
    world: Map<AccountId, AccountModel>,
    id: AccountId,
    namespace: AccountId,
    bytes: Seq<u8>,
    q: Position,
    other: AccountId,
)
    ensures
        ({
            let p = Position { account_id: id, namespace: Some(namespace) };
            let after = world_with_shard(world, p, bytes);
            &&& shard_in(after, p) == bytes
            &&& q != p ==> shard_in(after, q) == shard_in(world, q)
            &&& balance_in(after, other) == balance_in(world, other)
            &&& account_in(after, other).nonce == account_in(world, other).nonce
            &&& other != id ==> account_in(after, other) == account_in(world, other)
            &&& world_with_shard(world, Position { account_id: id, namespace: None }, bytes)
                == world
        }),
{
}

/// Setting a balance changes that balance and nothing else of any account.
pub proof fn law_balances_are_set_alone(
    world: Map<AccountId, AccountModel>,
    id: AccountId,
    balance: u128,
    q: Position,
    other: AccountId,
)
    ensures
        balance_in(world_with_balance(world, id, balance), id) == balance,
        other != id ==> account_in(world_with_balance(world, id, balance), other) == account_in(
            world,
            other,
        ),
        shard_in(world_with_balance(world, id, balance), q) == shard_in(world, q),
        account_in(world_with_balance(world, id, balance), id).nonce == account_in(world, id).nonce,
        account_in(world_with_balance(world, id, balance), id).shards == account_in(
            world,
            id,
        ).shards,
{
}

/// Writing a shard and reading the account again, through the operations on accounts: the read
/// gives back the write.
pub proof fn law_set_then_read(
    before: Account,
    namespace: AccountId,
    data: Data,
    after: Account,
    read: Data,
    other: AccountId,
    bystander: Data,
    was: Data,
)
    requires
        call_ensures(Account::with_shard, (before, namespace, data), after),
        call_ensures(Account::shard, (&after, namespace), read),
        call_ensures(Account::shard, (&before, other), was),
        call_ensures(Account::shard, (&after, other), bystander),
        other != namespace,
    ensures
        read@ == data@,
        bystander@ == was@,
        after.balance == before.balance,
        after.nonce == before.nonce,
{
}

/// A scoped read carries the balance and, of the shards, the one that is named and no other.
pub proof fn law_scoped_reads_carry_one_shard(
    account: Account,
    namespace: Option<AccountId>,
    view: AccountView,
    ns: AccountId,
)
    requires
        call_ensures(Account::scoped_view, (&account, namespace), view),
    ensures
        view.balance == account.balance,
        view.shards@.contains_key(ns) <==> namespace == Some(ns),
        namespace == Some(ns) && account.shards@.contains_key(ns) ==> view.shards@[ns]@
            == account.shards@[ns]@,
        namespace == Some(ns) && !account.shards@.contains_key(ns) ==> view.shards@[ns]@.len() == 0,
{
    law_views_count_whole(view, ns);
    law_accounts_count_whole(account, ns);
    assert(view@.shards.contains_key(ns) <==> namespace == Some(ns));
}

} // verus!
