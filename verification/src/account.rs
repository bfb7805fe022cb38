//! Accounts, the scoped views of them, and the set of accounts a transaction works on.
use crate::data::Data;
use crate::id_map::IdMap;
use crate::position::{AccountId, Position};
use vstd::prelude::*;

verus! {

/// Counter that keeps two states of one account apart.
#[derive(Clone, Copy, Debug, PartialEq, Eq, Structural)]
pub struct Nonce(pub u128);

/// An account: a balance, a nonce and one shard for each program that wrote to it.
#[derive(Debug, PartialEq, Eq)]
pub struct Account {
    pub balance: u128,
    pub nonce: Nonce,
    pub shards: IdMap<Data>,
}

/// An account as a value.
#[verifier::ext_equal]
pub struct AccountModel {
    pub balance: u128,
    pub nonce: Nonce,
    pub shards: Map<AccountId, Seq<u8>>,
}

/// The bytes behind each key.
pub open spec fn shard_bytes(shards: Map<AccountId, Data>) -> Map<AccountId, Seq<u8>> {
    shards.map_values(|data: Data| data@)
}

impl AccountModel {
    /// An account nothing ever touched.
    pub open spec fn untouched() -> AccountModel {
        AccountModel { balance: 0, nonce: Nonce(0), shards: Map::empty() }
    }

    /// What `namespace` reads here; a program that never wrote reads no bytes.
    pub open spec fn shard(self, namespace: AccountId) -> Seq<u8> {
        if self.shards.contains_key(namespace) {
            self.shards[namespace]
        } else {
            Seq::empty()
        }
    }

    pub open spec fn with_nonce(self, nonce: Nonce) -> AccountModel {
        AccountModel { nonce, ..self }
    }

    pub open spec fn with_shard(self, namespace: AccountId, bytes: Seq<u8>) -> AccountModel {
        AccountModel { shards: self.shards.insert(namespace, bytes), ..self }
    }
}

impl View for Account {
    type V = AccountModel;

    open spec fn view(&self) -> AccountModel {
        AccountModel {
            balance: self.balance,
            nonce: self.nonce,
            shards: shard_bytes(self.shards@),
        }
    }
}

impl Default for Account {
    fn default() -> (account: Self)
        ensures
            account@ == AccountModel::untouched(),
    {
        let account = Account { balance: 0, nonce: Nonce(0), shards: IdMap::new() };
        assert(account@ =~= AccountModel::untouched());
        account
    }
}

impl Clone for Account {
    fn clone(&self) -> (copy: Self)
        ensures
            copy@ == self@,
    {
        let copy = Account {
            balance: self.balance,
            nonce: self.nonce,
            shards: self.shards.clone(),
        };
        assert(copy@ =~= self@);
        copy
    }
}

impl Account {
    /// An account that holds `balance` and nothing else.
    pub fn with_balance(balance: u128) -> (account: Self)
        ensures
            account@ == (AccountModel { balance, ..AccountModel::untouched() }),
    {
        let mut account = Account::default();
        account.balance = balance;
        account
    }

    /// Replaces the shard of `namespace` and leaves the rest of the account alone.
    pub fn set_shard(&mut self, namespace: AccountId, data: Data)
        ensures
            final(self)@ == old(self)@.with_shard(namespace, data@),
    {
        self.shards.insert(namespace, data);
        assert(self@ =~= old(self)@.with_shard(namespace, data@));
    }

    pub fn with_shard(self, namespace: AccountId, data: Data) -> (account: Self)
        ensures
            account@ == self@.with_shard(namespace, data@),
    {
        let mut account = self;
        account.set_shard(namespace, data);
        account
    }

    /// Replaces the nonce and leaves the rest of the account alone.
    pub fn with_nonce(self, nonce: Nonce) -> (account: Self)
        ensures
            account@ == self@.with_nonce(nonce),
    {
        let mut account = self;
        account.nonce = nonce;
        account
    }

    /// What `namespace` reads here.
    pub fn shard(&self, namespace: AccountId) -> (data: Data)
        ensures
            data@ == self@.shard(namespace),
    {
        match self.shards.get(namespace) {
            Some(data) => data.clone(),
            None => Data::empty(),
        }
    }

    /// Reads the balance and, where a namespace is named, that one shard.
    pub fn scoped_view(&self, namespace: Option<AccountId>) -> (view: AccountView)
        ensures
            view@.balance == self@.balance,
            namespace matches Some(ns) ==> view@.shards == Map::empty().insert(ns, self@.shard(ns)),
            namespace is None ==> view@.shards == Map::<AccountId, Seq<u8>>::empty(),
    {
        let mut shards: IdMap<Data> = IdMap::new();
        if let Some(ns) = namespace {
            shards.insert(ns, self.shard(ns));
        }
        let view = AccountView { balance: self.balance, shards };
        proof {
            match namespace {
                Some(ns) => assert(view@.shards =~= Map::empty().insert(ns, self@.shard(ns))),
                None => assert(view@.shards =~= Map::<AccountId, Seq<u8>>::empty()),
            }
        }
        view
    }
}

/// The part of an account that a transaction or a reader saw.
#[derive(Debug, PartialEq, Eq)]
pub struct AccountView {
    pub balance: u128,
    pub shards: IdMap<Data>,
}

/// An account view as a value.
#[verifier::ext_equal]
pub struct AccountViewModel {
    pub balance: u128,
    pub shards: Map<AccountId, Seq<u8>>,
}

impl View for AccountView {
    type V = AccountViewModel;

    open spec fn view(&self) -> AccountViewModel {
        AccountViewModel { balance: self.balance, shards: shard_bytes(self.shards@) }
    }
}

impl Default for AccountView {
    fn default() -> (view: Self)
        ensures
            view@ == (AccountViewModel { balance: 0, shards: Map::empty() }),
    {
        let view = AccountView { balance: 0, shards: IdMap::new() };
        assert(view@.shards =~= Map::<AccountId, Seq<u8>>::empty());
        view
    }
}

/// The account at `id`; one that the map does not hold was never touched.
pub open spec fn account_in(world: Map<AccountId, AccountModel>, id: AccountId) -> AccountModel {
    if world.contains_key(id) {
        world[id]
    } else {
        AccountModel::untouched()
    }
}

pub open spec fn balance_in(world: Map<AccountId, AccountModel>, id: AccountId) -> u128 {
    account_in(world, id).balance
}

/// The bytes at `position`; a position without a namespace has none.
pub open spec fn shard_in(world: Map<AccountId, AccountModel>, position: Position) -> Seq<u8> {
    match position.namespace {
        Some(namespace) => account_in(world, position.account_id).shard(namespace),
        None => Seq::empty(),
    }
}

/// `world` with `bytes` at `position`; a position without a namespace takes none.
pub open spec fn world_with_shard(
    world: Map<AccountId, AccountModel>,
    position: Position,
    bytes: Seq<u8>,
) -> Map<AccountId, AccountModel> {
    match position.namespace {
        Some(namespace) => world.insert(
            position.account_id,
            account_in(world, position.account_id).with_shard(namespace, bytes),
        ),
        None => world,
    }
}

pub open spec fn world_with_balance(
    world: Map<AccountId, AccountModel>,
    id: AccountId,
    balance: u128,
) -> Map<AccountId, AccountModel> {
    world.insert(id, AccountModel { balance, ..account_in(world, id) })
}

/// Accounts by address.
#[derive(Debug, PartialEq, Eq)]
pub struct World {
    pub accounts: IdMap<Account>,
}

impl View for World {
    type V = Map<AccountId, AccountModel>;

    open spec fn view(&self) -> Map<AccountId, AccountModel> {
        self.accounts@.map_values(|account: Account| account@)
    }
}

impl Clone for World {
    fn clone(&self) -> (copy: Self)
        ensures
            copy@ == self@,
    {
        let copy = World { accounts: self.accounts.clone() };
        assert(copy@ =~= self@);
        copy
    }
}

impl World {
    pub fn new() -> (world: Self)
        ensures
            world@ == Map::<AccountId, AccountModel>::empty(),
    {
        let world = World { accounts: IdMap::new() };
        assert(world@ =~= Map::<AccountId, AccountModel>::empty());
        world
    }

    pub fn insert(&mut self, id: AccountId, account: Account)
        ensures
            final(self)@ == old(self)@.insert(id, account@),
    {
        self.accounts.insert(id, account);
        assert(self@ =~= old(self)@.insert(id, account@));
    }

    pub fn account(&self, id: AccountId) -> (account: Account)
        ensures
            account@ == account_in(self@, id),
    {
        match self.accounts.get(id) {
            Some(account) => account.clone(),
            None => Account::default(),
        }
    }

    pub fn balance(&self, id: AccountId) -> (balance: u128)
        ensures
            balance == balance_in(self@, id),
    {
        match self.accounts.get(id) {
            Some(account) => account.balance,
            None => 0,
        }
    }

    pub fn shard(&self, position: Position) -> (data: Data)
        ensures
            data@ == shard_in(self@, position),
    {
        match position.namespace {
            Some(namespace) => match self.accounts.get(position.account_id) {
                Some(account) => account.shard(namespace),
                None => Data::empty(),
            },
            None => Data::empty(),
        }
    }

    pub fn set_shard(&mut self, position: Position, data: Data)
        ensures
            final(self)@ == world_with_shard(old(self)@, position, data@),
    {
        if let Some(namespace) = position.namespace {
            let account = self.account(position.account_id).with_shard(namespace, data);
            self.insert(position.account_id, account);
        }
    }

    pub fn set_balance(&mut self, id: AccountId, balance: u128)
        ensures
            final(self)@ == world_with_balance(old(self)@, id, balance),
    {
        let mut account = self.account(id);
        account.balance = balance;
        self.insert(id, account);
    }
}

} // verus!
