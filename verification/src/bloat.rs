//! Filling an account with shards that its owner never asked for, and reading it anyway.
use crate::account::AccountModel;
use crate::data::DATA_MAX_LENGTH;
use crate::position::{AccountId, Position};
use vstd::prelude::*;

verus! {

/// Bytes of one bloating shard: as many as a shard can hold.
pub const BLOAT_SHARD_BYTES: usize = DATA_MAX_LENGTH;

/// Programs that it takes to bloat an account.
pub const BLOAT_WRITERS: usize = 4;

/// Longest response that a node serves, in bytes.
pub const MAX_RESPONSE_BYTES: usize = 10_485_760;

/// One call that has a program write its own shard.
#[derive(Debug, PartialEq, Eq)]
pub struct ShardWrite {
    pub program: AccountId,
    pub position: Position,
    pub bytes: Vec<u8>,
}

/// How many segments hold `byte_len` bytes of code.
pub fn segments_needed(byte_len: usize, max_segment_len: usize) -> (count: usize)
    requires
        max_segment_len > 0,
    ensures
        count * max_segment_len >= byte_len,
        count > 0 ==> (count - 1) * max_segment_len < byte_len,
{
    let whole = byte_len / max_segment_len;
    let rest = byte_len % max_segment_len;
    proof {
        vstd::arithmetic::div_mod::lemma_fundamental_div_mod(
            byte_len as int,
            max_segment_len as int,
        );
        assert(max_segment_len * whole == whole * max_segment_len) by (nonlinear_arith);
        assert((whole + 1) * max_segment_len == whole * max_segment_len + max_segment_len)
            by (nonlinear_arith);
        assert((whole - 1) * max_segment_len == whole * max_segment_len - max_segment_len)
            by (nonlinear_arith);
        if rest > 0 {
            assert(max_segment_len > 1);
            assert(whole < byte_len) by (nonlinear_arith)
                requires
                    byte_len == max_segment_len * whole + rest,
                    max_segment_len > 1,
                    rest > 0,
            ;
        }
    }
    if rest > 0 {
        whole + 1
    } else {
        whole
    }
}

/// The bytes of one bloating shard.
pub open spec fn full_shard() -> Seq<u8> {
    Seq::new(BLOAT_SHARD_BYTES as nat, |i: int| 0xFFu8)
}

/// A full shard of a writer's own at the victim.
pub open spec fn bloats(write: ShardWrite, victim: AccountId, writer: AccountId) -> bool {
    &&& write.program == writer
    &&& write.position == (Position { account_id: victim, namespace: Some(writer) })
    &&& write.bytes@ == full_shard()
}

/// One write for each writer. None of them needs the victim's consent: each goes to a shard
/// that is the writer's own.
pub fn bloat_writes(victim: AccountId, writers: &Vec<AccountId>) -> (writes: Vec<ShardWrite>)
    ensures
        writes@.len() == writers@.len(),
        forall|i: int|
            0 <= i < writers@.len() ==> bloats(#[trigger] writes@[i], victim, writers@[i]),
        forall|i: int|
            0 <= i < writers@.len() ==> {
                let write = #[trigger] writes@[i];
                &&& write.program == writers@[i]
                &&& write.position.account_id == victim
                &&& write.position.namespace == Some(writers@[i])
                &&& write.bytes@.len() == DATA_MAX_LENGTH
                &&& forall|k: int| 0 <= k < write.bytes@.len() ==> write.bytes@[k] == 0xFFu8
            },
{
    let mut writes: Vec<ShardWrite> = Vec::new();
    let mut i: usize = 0;
    while i < writers.len()
        invariant
            i <= writers@.len(),
            writes@.len() == i,
            forall|j: int| 0 <= j < i ==> bloats(#[trigger] writes@[j], victim, writers@[j]),
        decreases writers.len() - i,
    {
        let writer = writers[i];
        let bytes = vec![0xFFu8; BLOAT_SHARD_BYTES];
        assert(bytes@ =~= full_shard());
        writes.push(ShardWrite { program: writer, position: Position::new(victim, writer), bytes });
        i = i + 1;
    }
    writes
}

/// An account after each of `writers` has written its shard there.
pub open spec fn bloated(account: AccountModel, writers: Seq<AccountId>) -> AccountModel
    decreases writers.len(),
{
    if writers.len() == 0 {
        account
    } else {
        bloated(account, writers.drop_last()).with_shard(writers.last(), full_shard())
    }
}

/// Bloating an account gives each writer's namespace a full shard and changes neither the
/// balance nor what any other namespace reads.
pub proof fn law_bloat_stays_in_its_namespaces(
    account: AccountModel,
    writers: Seq<AccountId>,
    namespace: AccountId,
)
    ensures
        bloated(account, writers).balance == account.balance,
        bloated(account, writers).nonce == account.nonce,
        writers.contains(namespace) ==> bloated(account, writers).shard(namespace)
            == full_shard(),
        !writers.contains(namespace) ==> bloated(account, writers).shard(namespace)
            == account.shard(namespace),
    decreases writers.len(),
{
    if writers.len() > 0 {
        let rest = writers.drop_last();
        law_bloat_stays_in_its_namespaces(account, rest, namespace);
        if namespace == writers.last() {
            assert(writers[writers.len() - 1] == namespace);
        } else if writers.contains(namespace) {
            assert(rest[writers.index_of(namespace)] == namespace);
        } else if rest.contains(namespace) {
            assert(writers[rest.index_of(namespace)] == namespace);
        }
    }
}

/// The characters of one byte in decimal.
pub open spec fn decimal_len(byte: u8) -> nat {
    if byte < 10 {
        1
    } else if byte < 100 {
        2
    } else {
        3
    }
}

/// The characters of a shard in a response, where bytes are decimal numbers with a comma after
/// each. Brackets, names and the rest of a response come on top.
pub open spec fn response_len(bytes: Seq<u8>) -> nat
    decreases bytes.len(),
{
    if bytes.len() == 0 {
        0
    } else {
        response_len(bytes.drop_last()) + decimal_len(bytes.last()) + 1
    }
}

/// The characters of the shards in a read of `namespaces`.
pub open spec fn read_len(account: AccountModel, namespaces: Seq<AccountId>) -> nat
    decreases namespaces.len(),
{
    if namespaces.len() == 0 {
        0
    } else {
        read_len(account, namespaces.drop_last()) + response_len(account.shard(namespaces.last()))
    }
}

/// A shard of full bytes takes four characters for each.
proof fn lemma_full_response(bytes: Seq<u8>)
    requires
        forall|i: int| 0 <= i < bytes.len() ==> #[trigger] bytes[i] == 0xFFu8,
    ensures
        response_len(bytes) == 4 * bytes.len(),
    decreases bytes.len(),
{
    if bytes.len() > 0 {
        assert forall|i: int| 0 <= i < bytes.drop_last().len() implies #[trigger] bytes.drop_last()[i]
            == 0xFFu8 by {
            assert(bytes.drop_last()[i] == bytes[i]);
        }
        lemma_full_response(bytes.drop_last());
        assert(bytes[bytes.len() - 1] == 0xFFu8);
    }
}

proof fn lemma_bloated_read(
    account: AccountModel,
    writers: Seq<AccountId>,
    namespaces: Seq<AccountId>,
)
    requires
        forall|i: int| 0 <= i < namespaces.len() ==> writers.contains(#[trigger] namespaces[i]),
    ensures
        read_len(bloated(account, writers), namespaces) == namespaces.len() * (4
            * BLOAT_SHARD_BYTES),
    decreases namespaces.len(),
{
    if namespaces.len() > 0 {
        let rest = namespaces.drop_last();
        assert forall|i: int| 0 <= i < rest.len() implies writers.contains(#[trigger] rest[i]) by {
            assert(rest[i] == namespaces[i]);
        }
        lemma_bloated_read(account, writers, rest);
        assert(writers.contains(namespaces[namespaces.len() - 1]));
        law_bloat_stays_in_its_namespaces(account, writers, namespaces.last());
        lemma_full_response(full_shard());
        assert(namespaces.len() * (4 * BLOAT_SHARD_BYTES) == rest.len() * (4 * BLOAT_SHARD_BYTES) + (
        4 * BLOAT_SHARD_BYTES)) by (nonlinear_arith)
            requires
                namespaces.len() == rest.len() + 1,
        ;
    }
}

/// Once [`BLOAT_WRITERS`] strangers have filled an account, a read of all their shards exceeds
/// what a node serves, while a read of any one of them stays within a third of it and a read of
/// the balance alone carries none.
pub proof fn law_bloat_defeats_the_whole_read_but_not_the_scoped_one(
    account: AccountModel,
    writers: Seq<AccountId>,
    writer: AccountId,
)
    requires
        writers.len() >= BLOAT_WRITERS,
        writers.no_duplicates(),
        writers.contains(writer),
    ensures
        read_len(bloated(account, writers), writers) > MAX_RESPONSE_BYTES,
        read_len(bloated(account, writers), seq![writer]) * 3 <= MAX_RESPONSE_BYTES,
        read_len(bloated(account, writers), Seq::empty()) == 0,
{
    lemma_bloated_read(account, writers, writers);
    lemma_bloated_read(account, writers, seq![writer]);
    assert(writers.len() * (4 * BLOAT_SHARD_BYTES) >= BLOAT_WRITERS * (4 * BLOAT_SHARD_BYTES))
        by (nonlinear_arith)
        requires
            writers.len() >= BLOAT_WRITERS,
    ;
}

} // verus!
