use lee_traversal::account::{Account, AccountView, Nonce, World};
use lee_traversal::bloat::{bloat_writes, segments_needed, BLOAT_SHARD_BYTES, BLOAT_WRITERS};
use lee_traversal::data::{Data, DataTooBig, DATA_MAX_LENGTH};
use lee_traversal::id_map::IdMap;
use lee_traversal::position::{contains_id, contains_position, AccountId, Position};
use lee_traversal::program::{BalanceDiff, ValidityWindow};

fn id(byte: u8) -> AccountId {
    AccountId::new([byte; 32])
}

fn data(bytes: &[u8]) -> Data {
    Data::try_from(bytes.to_vec()).unwrap()
}

#[test]
fn a_shard_holds_up_to_its_limit() {
    assert_eq!(DATA_MAX_LENGTH, 700 * 1024);
    let full = Data::try_from(vec![1; DATA_MAX_LENGTH]).unwrap();
    assert_eq!(full.len(), DATA_MAX_LENGTH);
    assert_eq!(full.as_ref().len(), DATA_MAX_LENGTH);
    let over = vec![1; DATA_MAX_LENGTH + 1];
    assert_eq!(Data::try_from(over.clone()), Err(DataTooBig { bytes: over }));
    assert_eq!(Data::empty().len(), 0);
}

#[test]
fn shards_are_compared_by_their_bytes() {
    assert!(data(&[1, 2]).same_bytes(&data(&[1, 2])));
    assert!(!data(&[1, 2]).same_bytes(&data(&[1, 3])));
    assert!(!data(&[1, 2]).same_bytes(&data(&[1])));
}

#[test]
fn a_map_keeps_one_value_for_each_key() {
    let mut map: IdMap<u32> = IdMap::new();
    assert_eq!(map.get(id(1)), None);
    map.insert(id(1), 10);
    map.insert(id(2), 20);
    map.insert(id(1), 11);
    assert_eq!(map.get(id(1)), Some(&11));
    assert_eq!(map.get(id(2)), Some(&20));
    assert!(!map.contains_key(id(3)));
    assert_eq!(map.len(), 2);
    assert_eq!(map.clone(), map);
}

#[test]
fn maps_are_equal_whatever_the_order_of_their_keys() {
    let build = |entries: &[(u8, u32)]| {
        let mut map: IdMap<u32> = IdMap::new();
        for (key, value) in entries {
            map.insert(id(*key), *value);
        }
        map
    };
    assert_eq!(build(&[(1, 10), (2, 20)]), build(&[(2, 20), (1, 10)]));
    assert_ne!(build(&[(1, 10), (2, 20)]), build(&[(2, 20)]));
    assert_ne!(build(&[(1, 10), (2, 20)]), build(&[(1, 10), (3, 20)]));
    assert_ne!(build(&[(1, 10)]), build(&[(1, 11)]));
}

#[test]
fn membership_is_by_value() {
    assert!(contains_id(&vec![id(1), id(2)], id(2)));
    assert!(!contains_id(&vec![id(1)], id(2)));
    let positions = vec![Position::new(id(1), id(2)), Position::balance_only(id(3))];
    assert!(contains_position(&positions, Position::new(id(1), id(2))));
    assert!(contains_position(&positions, Position::balance_only(id(3))));
    assert!(!contains_position(&positions, Position::balance_only(id(1))));
    assert!(!contains_position(&positions, Position::new(id(2), id(1))));
}

#[test]
fn setting_a_shard_leaves_the_rest_of_an_account_alone() {
    let mut account = Account::with_balance(7).with_shard(id(1), data(&[1]));
    account.set_shard(id(2), data(&[2]));
    assert_eq!(account.balance, 7);
    assert_eq!(account.nonce, Nonce(0));
    assert_eq!(account.shard(id(1)), data(&[1]));
    assert_eq!(account.shard(id(2)), data(&[2]));
    assert_eq!(account.shard(id(3)), Data::empty());
}

#[test]
fn a_scoped_read_carries_one_shard_or_none() {
    let account =
        Account::with_balance(7).with_shard(id(1), data(&[1])).with_shard(id(2), data(&[2, 2]));
    let view = account.scoped_view(Some(id(2)));
    assert_eq!(view.balance, 7);
    assert_eq!(view.shards.len(), 1);
    assert_eq!(view.shards.get(id(2)), Some(&data(&[2, 2])));

    let absent = account.scoped_view(Some(id(3)));
    assert_eq!(absent.shards.get(id(3)), Some(&Data::empty()));

    let balance_only = account.scoped_view(None);
    assert_eq!(balance_only, AccountView { balance: 7, ..AccountView::default() });
}

#[test]
fn an_account_that_is_not_held_is_untouched() {
    let mut world = World::new();
    assert_eq!(world.account(id(1)), Account::default());
    assert_eq!(world.balance(id(1)), 0);
    assert_eq!(world.shard(Position::new(id(1), id(2))), Data::empty());

    world.set_shard(Position::new(id(1), id(2)), data(&[5]));
    world.set_balance(id(3), 9);
    world.set_shard(Position::balance_only(id(4)), data(&[6]));
    assert_eq!(world.shard(Position::new(id(1), id(2))), data(&[5]));
    assert_eq!(world.shard(Position::balance_only(id(1))), Data::empty());
    assert_eq!(world.balance(id(1)), 0);
    assert_eq!(world.balance(id(3)), 9);
    assert_eq!(world.account(id(4)), Account::default());
}

#[test]
fn balances_move_where_they_fit() {
    assert_eq!(BalanceDiff::Add(3).apply(4), Some(7));
    assert_eq!(BalanceDiff::Sub(4).apply(4), Some(0));
    assert_eq!(BalanceDiff::Sub(5).apply(4), None);
    assert_eq!(BalanceDiff::Add(1).apply(u128::MAX), None);
}

#[test]
fn a_window_ends_before_its_end() {
    let window = |from: Option<u64>, to: Option<u64>| ValidityWindow { from, to };
    assert!(window(Some(4), Some(4)).is_empty());
    assert!(!window(Some(4), Some(5)).is_empty());
    assert!(window(None, Some(0)).is_empty());
    assert!(!window(None, Some(1)).is_empty());
    assert!(!window(Some(u64::MAX), None).is_empty());
    assert!(!ValidityWindow::unbounded().is_empty());
    assert_eq!(
        window(Some(1), Some(9)).intersect(window(Some(3), Some(12))),
        window(Some(3), Some(9))
    );
    assert_eq!(window(None, Some(9)).intersect(window(Some(3), None)), window(Some(3), Some(9)));
}

#[test]
fn code_is_cut_into_as_few_segments_as_hold_it() {
    assert_eq!(segments_needed(0, 10), 0);
    assert_eq!(segments_needed(1, 10), 1);
    assert_eq!(segments_needed(10, 10), 1);
    assert_eq!(segments_needed(11, 10), 2);
    assert_eq!(segments_needed(usize::MAX, 1), usize::MAX);
    assert_eq!(segments_needed(usize::MAX, usize::MAX), 1);
}

#[test]
fn a_bloated_account_can_still_be_read_one_namespace_at_a_time() {
    let victim = id(0x77);
    let writers: Vec<AccountId> = (1..=BLOAT_WRITERS).map(|n| id(n as u8)).collect();
    let writes = bloat_writes(victim, &writers);
    assert_eq!(writes.len(), BLOAT_WRITERS);

    let mut world = World::new();
    world.insert(victim, Account::with_balance(100).with_shard(id(0xF0), data(&[1, 2])));
    for (write, writer) in writes.into_iter().zip(&writers) {
        assert_eq!(write.program, *writer);
        assert_eq!(write.position, Position::new(victim, *writer));
        assert!(write.bytes.iter().all(|byte| *byte == 0xFF));
        world.set_shard(write.position, Data::try_from(write.bytes).unwrap());
    }

    let account = world.account(victim);
    let limit = 10 * 1024 * 1024;
    let response = |shards: &[Data]| -> usize {
        shards.iter().map(|shard| format!("{:?}", shard.as_ref()).replace(' ', "").len()).sum()
    };
    let all: Vec<Data> = writers.iter().map(|writer| account.shard(*writer)).collect();
    assert!(response(&all) > limit);
    for writer in &writers {
        let view = account.scoped_view(Some(*writer));
        assert_eq!(view.shards.len(), 1);
        let shard = view.shards.get(*writer).unwrap();
        assert_eq!(shard.len(), BLOAT_SHARD_BYTES);
        assert!(response(std::slice::from_ref(shard)) < limit);
    }
    assert_eq!(account.balance, 100);
    assert_eq!(account.shard(id(0xF0)), data(&[1, 2]));
    assert!(account.scoped_view(None).shards.get(writers[0]).is_none());
}
