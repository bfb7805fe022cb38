//! What holds of every traversal.
use crate::account::{
    account_in, balance_in, shard_in, world_with_balance, world_with_shard, AccountModel,
    AccountViewModel,
};
use crate::codec::{encoded_bytes, InstructionModel};
use crate::error::LeeError;
use crate::instruction::forwarded_write;
use crate::model::{
    cover, cover_all, diff_allowed, diff_applied, diffs_applied, opened, reported, scoped, started,
    CallModel, DueModel, Event, JournalModel, ProvingInputModel, PublicActionModel, RunModel,
    TraversalModel,
};
use crate::namespace_forwarder::{forwarded, forwarded_call, own_write_diff};
use crate::position::{AccountId, Position};
use crate::program::{
    moved_balance, BalanceDiff, InputModel, ProgramOutputModel, ShardStateDiffModel,
    ValidityWindow,
};
use crate::traversal::ProvingInput;
use crate::witness::{
    law_grants_are_what_witnesses_name, private_grants, PrivateWitness, WitnessKind,
};
use vstd::prelude::*;

verus! {

/// Covering adds exactly the given positions, and none twice.
pub(crate) proof fn lemma_cover_all(covered: Seq<Position>, positions: Seq<Position>)
    ensures
        forall|p: Position| #[trigger]
            cover_all(covered, positions).contains(p) <==> covered.contains(p)
                || positions.contains(p),
        covered.no_duplicates() ==> cover_all(covered, positions).no_duplicates(),
    decreases positions.len(),
{
    if positions.len() > 0 {
        let rest = positions.drop_last();
        let before = cover_all(covered, rest);
        let last = positions.last();
        lemma_cover_all(covered, rest);
        assert forall|p: Position| #[trigger]
            cover_all(covered, positions).contains(p) <==> covered.contains(p)
                || positions.contains(p) by {
            assert(positions.contains(p) <==> rest.contains(p) || p == last) by {
                if rest.contains(p) {
                    assert(positions[rest.index_of(p)] == p);
                }
                if p == last {
                    assert(positions[positions.len() - 1] == p);
                }
                if positions.contains(p) && p != last {
                    assert(rest[positions.index_of(p)] == p);
                }
            }
            assert(before.contains(p) <==> covered.contains(p) || rest.contains(p));
            lemma_push_contains(before, last, p);
        }
    } else {
        assert forall|p: Position| !positions.contains(p) by {}
    }
}

proof fn lemma_push_contains(s: Seq<Position>, last: Position, p: Position)
    ensures
        s.push(last).contains(p) <==> s.contains(p) || p == last,
{
    if s.contains(p) {
        assert(s.push(last)[s.index_of(p)] == p);
    }
    if p == last {
        assert(s.push(last)[s.len() as int] == p);
    }
    if s.push(last).contains(p) && p != last {
        assert(s[s.push(last).index_of(p)] == p);
    }
}

/// The first unsettled position is unsettled and one of those searched; where there is none,
/// all are settled.
pub(crate) proof fn lemma_first_unsettled(m: TraversalModel, positions: Seq<Position>)
    ensures
        m.first_unsettled(positions) matches Some(p) ==> m.unsettled(p) && positions.contains(p),
        m.first_unsettled(positions) is None ==> forall|p: Position| #[trigger]
            positions.contains(p) ==> !m.unsettled(p),
    decreases positions.len(),
{
    if positions.len() > 0 {
        let rest = positions.drop_first();
        lemma_first_unsettled(m, rest);
        assert(positions[0] == positions.first());
        if m.first_unsettled(positions) is Some && !m.unsettled(positions.first()) {
            let p = m.first_unsettled(positions)->0;
            assert(positions[rest.index_of(p) + 1] == p);
        }
        if m.first_unsettled(positions) is None {
            assert forall|p: Position| #[trigger] positions.contains(p) implies !m.unsettled(p) by {
                if p != positions.first() {
                    let k = positions.index_of(p);
                    assert(rest[k - 1] == p);
                    assert(rest.contains(p));
                }
            }
        }
    }
}

/// Setting one shard changes that shard and nothing else.
proof fn lemma_with_shard(
    world: Map<AccountId, AccountModel>,
    position: Position,
    bytes: Seq<u8>,
)
    ensures
        forall|q: Position| #[trigger]
            shard_in(world_with_shard(world, position, bytes), q) == if q == position
                && q.namespace is Some {
                bytes
            } else {
                shard_in(world, q)
            },
        forall|id: AccountId| #[trigger]
            balance_in(world_with_shard(world, position, bytes), id) == balance_in(world, id),
{
    assert forall|q: Position| #[trigger]
        shard_in(world_with_shard(world, position, bytes), q) == if q == position
            && q.namespace is Some {
            bytes
        } else {
            shard_in(world, q)
        } by {}
}

/// Setting one balance changes that balance and nothing else.
proof fn lemma_with_balance(world: Map<AccountId, AccountModel>, id: AccountId, balance: u128)
    ensures
        forall|q: Position| #[trigger]
            shard_in(world_with_balance(world, id, balance), q) == shard_in(world, q),
        forall|other: AccountId| #[trigger]
            balance_in(world_with_balance(world, id, balance), other) == if other == id {
                balance
            } else {
                balance_in(world, other)
            },
{
}

/// Diffs change no shard at a position that they do not report.
pub(crate) proof fn lemma_unreported(
    world: Map<AccountId, AccountModel>,
    diffs: Seq<ShardStateDiffModel>,
    q: Position,
)
    requires
        diffs_applied(world, diffs) is Some,
        !reported(diffs).contains(q),
    ensures
        shard_in(diffs_applied(world, diffs)->0, q) == shard_in(world, q),
    decreases diffs.len(),
{
    if diffs.len() > 0 {
        let rest = diffs.drop_last();
        let before = diffs_applied(world, rest)->0;
        let last = diffs.last();
        assert(!reported(rest).contains(q)) by {
            if reported(rest).contains(q) {
                let k = reported(rest).index_of(q);
                assert(reported(diffs)[k] == q);
            }
        }
        assert(last.pre.position() != q) by {
            assert(reported(diffs)[diffs.len() - 1] == last.pre.position());
        }
        lemma_unreported(world, rest, q);
        let balance = moved_balance(
            balance_in(before, last.pre.account_id),
            last.balance_diff,
        )->0;
        lemma_with_balance(before, last.pre.account_id, balance);
        lemma_with_shard(
            world_with_balance(before, last.pre.account_id, balance),
            last.pre.position(),
            last.post_data,
        );
    }
}

/// What every traversal keeps: no position is settled twice or asked for twice, and what was
/// asked for is settled.
pub open spec fn settles_once(m: TraversalModel) -> bool {
    &&& m.covered.no_duplicates()
    &&& m.asked.no_duplicates()
    &&& forall|p: Position| #[trigger] m.asked.contains(p) ==> m.covered.contains(p)
}

/// What is settled stays settled, in its place.
pub proof fn law_settled_stays_settled(m: TraversalModel, event: Event, p: Position)
    requires
        m.covered.contains(p),
    ensures
        m.after(event).covered.contains(p),
{
    match (m.due(), event) {
        (DueModel::Resolve(position), Event::Resolved(_)) => {
            lemma_push_contains(m.covered, position, p);
        },
        (DueModel::Run(_), Event::Ran(output, _)) => {
            let call = m.pending.last();
            lemma_cover_all(m.covered, call.positions);
            lemma_cover_all(
                cover_all(m.covered, call.positions),
                reported(output.state_diffs),
            );
        },
        _ => {},
    }
}

/// No event settles a position twice or asks for it twice.
pub proof fn law_events_settle_once(m: TraversalModel, event: Event)
    requires
        settles_once(m),
    ensures
        settles_once(m.after(event)),
{
    let after = m.after(event);
    match (m.due(), event) {
        (DueModel::Resolve(position), Event::Resolved(_)) => {
            lemma_first_unsettled(m, m.pending.last().positions);
            assert(!m.asked.contains(position));
            assert forall|p: Position| #[trigger] after.asked.contains(p) implies 
                after.covered.contains(p) by {
                lemma_push_contains(m.asked, position, p);
                lemma_push_contains(m.covered, position, p);
            }
        },
        (DueModel::Run(_), Event::Ran(output, _)) => {
            let call = m.pending.last();
            lemma_cover_all(m.covered, call.positions);
            lemma_cover_all(
                cover_all(m.covered, call.positions),
                reported(output.state_diffs),
            );
        },
        _ => {},
    }
}

proof fn lemma_settles_once(m: TraversalModel, events: Seq<Event>)
    requires
        settles_once(m),
    ensures
        settles_once(m.after_all(events)),
    decreases events.len(),
{
    if events.len() > 0 {
        lemma_settles_once(m, events.drop_last());
        law_events_settle_once(m.after_all(events.drop_last()), events.last());
    }
}

proof fn lemma_started(input: ProvingInputModel, root: AccountId, programs: Set<AccountId>)
    ensures
        settles_once(started(input, root, programs)),
        forall|p: Position| #[trigger]
            input.positions.contains(p) ==> started(input, root, programs).covered.contains(p),
{
    lemma_cover_all(Seq::empty(), input.positions);
}

/// A position is asked for at most once across all chained calls, whatever the programs and
/// the resolver answer.
pub proof fn law_resolved_at_most_once(
    input: ProvingInputModel,
    root: AccountId,
    programs: Set<AccountId>,
    events: Seq<Event>,
)
    ensures
        started(input, root, programs).after_all(events).asked.no_duplicates(),
{
    lemma_started(input, root, programs);
    lemma_settles_once(started(input, root, programs), events);
}

/// A position that is settled without having been asked for is never asked for.
pub proof fn law_settled_is_never_resolved(m: TraversalModel, events: Seq<Event>, p: Position)
    requires
        m.covered.contains(p),
        !m.asked.contains(p),
    ensures
        m.after_all(events).covered.contains(p),
        !m.after_all(events).asked.contains(p),
    decreases events.len(),
{
    if events.len() > 0 {
        law_settled_is_never_resolved(m, events.drop_last(), p);
        let before = m.after_all(events.drop_last());
        law_settled_stays_settled(before, events.last(), p);
        match (before.due(), events.last()) {
            (DueModel::Resolve(position), Event::Resolved(_)) => {
                lemma_first_unsettled(before, before.pending.last().positions);
                lemma_push_contains(before.asked, position, p);
            },
            _ => {},
        }
    }
}

/// A position that the transaction names at its root is never asked for: its value came from
/// the caller.
pub proof fn law_top_level_is_never_resolved(
    input: ProvingInputModel,
    root: AccountId,
    programs: Set<AccountId>,
    events: Seq<Event>,
    p: Position,
)
    requires
        input.positions.contains(p),
    ensures
        !started(input, root, programs).after_all(events).asked.contains(p),
{
    lemma_started(input, root, programs);
    law_settled_is_never_resolved(started(input, root, programs), events, p);
}

/// A position that a program reports is never asked for afterwards, even where nothing handed
/// it to the program.
pub proof fn law_reported_is_never_resolved(
    m: TraversalModel,
    output: ProgramOutputModel,
    granted: Seq<Seq<AccountId>>,
    events: Seq<Event>,
    p: Position,
)
    requires
        m.due() is Run,
        m.accepts(m.pending.last().program, output),
        reported(output.state_diffs).contains(p),
        !m.asked.contains(p),
    ensures
        !m.after(Event::Ran(output, granted)).after_all(events).asked.contains(p),
{
    let call = m.pending.last();
    lemma_cover_all(m.covered, call.positions);
    lemma_cover_all(cover_all(m.covered, call.positions), reported(output.state_diffs));
    law_settled_is_never_resolved(m.after(Event::Ran(output, granted)), events, p);
}

/// A program is run only once every shard that its call names is settled: what nothing has
/// settled is asked for first.
pub proof fn law_runs_wait_for_their_shards(m: TraversalModel, p: Position)
    requires
        m.due() is Run,
        m.pending.last().positions.contains(p),
    ensures
        !m.unsettled(p),
{
    lemma_first_unsettled(m, m.pending.last().positions);
}

/// A shard that is fetched is merged in by itself: every balance and every other shard stays
/// what it was.
pub proof fn law_resolution_merges_one_shard(m: TraversalModel, bytes: Seq<u8>, q: Position)
    requires
        m.due() is Resolve,
    ensures
        ({
            let p = m.due()->Resolve_0;
            let after = m.after(Event::Resolved(Some(bytes)));
            &&& shard_in(after.base, q) == if q == p {
                bytes
            } else {
                shard_in(m.base, q)
            }
            &&& shard_in(after.current, q) == if q == p {
                bytes
            } else {
                shard_in(m.current, q)
            }
            &&& balance_in(after.base, q.account_id) == balance_in(m.base, q.account_id)
            &&& balance_in(after.current, q.account_id) == balance_in(m.current, q.account_id)
        }),
{
    let p = m.due()->Resolve_0;
    lemma_first_unsettled(m, m.pending.last().positions);
    lemma_with_shard(m.base, p, bytes);
    lemma_with_shard(m.current, p, bytes);
}

/// Fetching a shard leaves every settled shard alone: no write is lost to the resolver.
pub proof fn law_resolution_keeps_settled_shards(
    m: TraversalModel,
    answer: Option<Seq<u8>>,
    q: Position,
)
    requires
        m.due() is Resolve,
        m.covered.contains(q),
    ensures
        shard_in(m.after(Event::Resolved(answer)).current, q) == shard_in(m.current, q),
        shard_in(m.after(Event::Resolved(answer)).base, q) == shard_in(m.base, q),
{
    lemma_first_unsettled(m, m.pending.last().positions);
    if answer is Some {
        law_resolution_merges_one_shard(m, answer->0, q);
    }
}

pub(crate) proof fn lemma_last_write(
    world: Map<AccountId, AccountModel>,
    diffs: Seq<ShardStateDiffModel>,
    k: int,
)
    requires
        diffs_applied(world, diffs) is Some,
        0 <= k < diffs.len(),
        diffs[k].pre.namespace is Some,
        forall|j: int|
            k < j < diffs.len() ==> (#[trigger] diffs[j]).pre.position() != diffs[k].pre.position(),
    ensures
        shard_in(diffs_applied(world, diffs)->0, diffs[k].pre.position()) == diffs[k].post_data,
    decreases diffs.len(),
{
    let rest = diffs.drop_last();
    let before = diffs_applied(world, rest)->0;
    let last = diffs.last();
    let balance = moved_balance(balance_in(before, last.pre.account_id), last.balance_diff)->0;
    lemma_with_balance(before, last.pre.account_id, balance);
    lemma_with_shard(
        world_with_balance(before, last.pre.account_id, balance),
        last.pre.position(),
        last.post_data,
    );
    if k < diffs.len() - 1 {
        assert forall|j: int| k < j < rest.len() implies (#[trigger] rest[j]).pre.position()
            != rest[k].pre.position() by {
            assert(rest[j] == diffs[j]);
        }
        lemma_last_write(world, rest, k);
        assert(diffs[diffs.len() - 1].pre.position() != diffs[k].pre.position());
    }
}

/// What a program wrote last at a position is what stands there for the runs that follow.
pub proof fn law_writes_are_handed_on(
    m: TraversalModel,
    output: ProgramOutputModel,
    granted: Seq<Seq<AccountId>>,
    k: int,
)
    requires
        m.due() is Run,
        m.accepts(m.pending.last().program, output),
        0 <= k < output.state_diffs.len(),
        output.state_diffs[k].pre.namespace is Some,
        forall|j: int|
            k < j < output.state_diffs.len() ==> (
            #[trigger] output.state_diffs[j]).pre.position()
                != output.state_diffs[k].pre.position(),
    ensures
        shard_in(
            m.after(Event::Ran(output, granted)).current,
            output.state_diffs[k].pre.position(),
        ) == output.state_diffs[k].post_data,
{
    lemma_last_write(m.current, output.state_diffs, k);
}

proof fn lemma_only_own(
    start: Map<AccountId, AccountModel>,
    program: AccountId,
    diffs: Seq<ShardStateDiffModel>,
    q: Position,
)
    requires
        diffs_applied(start, diffs) is Some,
        q.namespace != Some(program),
        forall|i: int|
            0 <= i < diffs.len() ==> diff_allowed(start, program, #[trigger] diffs[i]),
    ensures
        shard_in(diffs_applied(start, diffs)->0, q) == shard_in(start, q),
    decreases diffs.len(),
{
    if diffs.len() > 0 {
        let rest = diffs.drop_last();
        let before = diffs_applied(start, rest)->0;
        let last = diffs.last();
        assert forall|i: int| 0 <= i < rest.len() implies diff_allowed(
            start,
            program,
            #[trigger] rest[i],
        ) by {
            assert(rest[i] == diffs[i]);
        }
        lemma_only_own(start, program, rest, q);
        assert(diff_allowed(start, program, diffs[diffs.len() - 1]));
        let balance = moved_balance(
            balance_in(before, last.pre.account_id),
            last.balance_diff,
        )->0;
        lemma_with_balance(before, last.pre.account_id, balance);
        lemma_with_shard(
            world_with_balance(before, last.pre.account_id, balance),
            last.pre.position(),
            last.post_data,
        );
    }
}

/// A run changes no shard but those under the namespace of the program that ran.
pub proof fn law_programs_write_only_their_own_shards(
    m: TraversalModel,
    output: ProgramOutputModel,
    granted: Seq<Seq<AccountId>>,
    q: Position,
)
    requires
        m.due() is Run,
        q.namespace != Some(m.pending.last().program),
    ensures
        shard_in(m.after(Event::Ran(output, granted)).current, q) == shard_in(m.current, q),
{
    if m.accepts(m.pending.last().program, output) {
        lemma_only_own(m.current, m.pending.last().program, output.state_diffs, q);
    }
}

/// An error of the resolver or of a program ends the traversal: nothing that comes after
/// changes it, and the error is its outcome.
pub proof fn law_errors_are_final(m: TraversalModel, error: LeeError, events: Seq<Event>)
    requires
        m.due() is Resolve || m.due() is Run,
    ensures
        m.after(Event::Failed(error)).after_all(events) == m.aborted(error),
        m.aborted(error).due() is Failed,
        m.aborted(error).outcome() == Err::<JournalModel, LeeError>(error),
    decreases events.len(),
{
    if events.len() > 0 {
        law_errors_are_final(m, error, events.drop_last());
    }
}

/// What was fetched for a position is what the journal names as its state before the
/// transaction, whatever happens afterwards.
pub proof fn law_journal_names_what_was_fetched(
    m: TraversalModel,
    bytes: Seq<u8>,
    events: Seq<Event>,
)
    requires
        m.due() is Resolve,
    ensures
        ({
            let p = m.due()->Resolve_0;
            let end = m.after(Event::Resolved(Some(bytes))).after_all(events);
            let pre = scoped(end.base, end.covered, p.account_id);
            &&& pre.shards.contains_key(p.namespace->0)
            &&& pre.shards[p.namespace->0] == bytes
        }),
{
    let p = m.due()->Resolve_0;
    let first = m.after(Event::Resolved(Some(bytes)));
    lemma_first_unsettled(m, m.pending.last().positions);
    law_resolution_merges_one_shard(m, bytes, p);
    lemma_push_contains(m.covered, p, p);
    lemma_base_is_settled(first, events, p);
    let end = first.after_all(events);
    assert(p == Position { account_id: p.account_id, namespace: Some(p.namespace->0) });
}

/// The state before the transaction is fixed where it is settled.
proof fn lemma_base_is_settled(m: TraversalModel, events: Seq<Event>, p: Position)
    requires
        m.covered.contains(p),
    ensures
        m.after_all(events).covered.contains(p),
        shard_in(m.after_all(events).base, p) == shard_in(m.base, p),
    decreases events.len(),
{
    if events.len() > 0 {
        lemma_base_is_settled(m, events.drop_last(), p);
        let before = m.after_all(events.drop_last());
        law_settled_stays_settled(before, events.last(), p);
        match (before.due(), events.last()) {
            (DueModel::Resolve(_), Event::Resolved(answer)) => {
                law_resolution_keeps_settled_shards(before, answer, p);
            },
            _ => {},
        }
    }
}

/// A resolver by what it answers.
pub type ResolverModel = spec_fn(Position) -> Option<Seq<u8>>;

/// A resolver that leaves every account as it was supplied.
pub open spec fn no_resolver() -> ResolverModel {
    |p: Position| None
}

/// A resolver that finds every shard empty.
pub open spec fn empty_resolver() -> ResolverModel {
    |p: Position| Some(Seq::empty())
}

/// A resolver that answers what the chain holds.
pub open spec fn chain_resolver(chain: spec_fn(Position) -> Seq<u8>) -> ResolverModel {
    |p: Position| Some(chain(p))
}

/// Programs by what they answer, and by what the seeds of their calls derive. A run may fail.
pub type ProgramsModel = spec_fn(RunModel) -> Result<
    (ProgramOutputModel, Seq<Seq<AccountId>>),
    LeeError,
>;

/// The traversal after `steps` pieces of outside work, done by `resolver` and `programs`.
pub open spec fn executed(
    m: TraversalModel,
    resolver: ResolverModel,
    programs: ProgramsModel,
    steps: nat,
) -> TraversalModel
    decreases steps,
{
    if steps == 0 {
        m
    } else {
        let before = executed(m, resolver, programs, (steps - 1) as nat);
        match before.due() {
            DueModel::Resolve(position) => before.after(Event::Resolved(resolver(position))),
            DueModel::Run(call) => match programs(call) {
                Ok((output, granted)) => before.after(Event::Ran(output, granted)),
                Err(error) => before.after(Event::Failed(error)),
            },
            _ => before,
        }
    }
}

/// What stands at `position` once it is asked for.
pub open spec fn settled_value(
    world: Map<AccountId, AccountModel>,
    resolver: ResolverModel,
    position: Position,
) -> Seq<u8> {
    match resolver(position) {
        Some(bytes) => bytes,
        None => shard_in(world, position),
    }
}

/// Two worlds with the same balances and private accounts, and with the same shards wherever
/// they are settled or not in `gaps`.
spec fn worlds_agree(
    a: Map<AccountId, AccountModel>,
    b: Map<AccountId, AccountModel>,
    m: TraversalModel,
    gaps: spec_fn(Position) -> bool,
) -> bool {
    &&& forall|id: AccountId| #[trigger] balance_in(a, id) == balance_in(b, id)
    &&& forall|id: AccountId| #[trigger]
        m.is_private(id) ==> account_in(a, id) == account_in(b, id)
    &&& forall|p: Position|
        #![trigger shard_in(a, p)]
        #![trigger shard_in(b, p)]
        m.covered.contains(p) || !gaps(p) ==> shard_in(a, p) == shard_in(b, p)
}

/// Two traversals that have come the same way over accounts that differ at most in `gaps`.
spec fn twins(a: TraversalModel, b: TraversalModel, gaps: spec_fn(Position) -> bool) -> bool {
    &&& a.covered == b.covered
    &&& a.asked == b.asked
    &&& a.signers == b.signers
    &&& a.witnesses == b.witnesses
    &&& a.programs == b.programs
    &&& a.pending == b.pending
    &&& a.window == b.window
    &&& a.failed == b.failed
    &&& worlds_agree(a.base, b.base, a, gaps)
    &&& worlds_agree(a.current, b.current, a, gaps)
}

/// What stands at `position` once it is asked for is the same in two traversals.
spec fn settle_alike_at(
    a: TraversalModel,
    b: TraversalModel,
    resolver_a: ResolverModel,
    resolver_b: ResolverModel,
    position: Position,
) -> bool {
    &&& settled_value(a.base, resolver_a, position) == settled_value(b.base, resolver_b, position)
    &&& settled_value(a.current, resolver_a, position) == settled_value(
        b.current,
        resolver_b,
        position,
    )
}

/// Two traversals settle alike wherever they have not settled yet.
spec fn settle_alike(
    a: TraversalModel,
    b: TraversalModel,
    resolver_a: ResolverModel,
    resolver_b: ResolverModel,
) -> bool {
    forall|p: Position| #[trigger]
        a.unsettled(p) ==> settle_alike_at(a, b, resolver_a, resolver_b, p)
}

/// `output` reports one of `gaps` that nothing has settled.
pub open spec fn reports_gap(
    m: TraversalModel,
    output: ProgramOutputModel,
    gaps: spec_fn(Position) -> bool,
) -> bool {
    exists|i: int|
        0 <= i < output.state_diffs.len() && gaps(
            (#[trigger] output.state_diffs[i]).pre.position(),
        ) && m.unsettled(output.state_diffs[i].pre.position())
}

/// The run that is due, if one is, does not tell two traversals apart by `gaps`: it reports no
/// gap that nothing has settled, or both refuse its answer.
pub open spec fn gaps_do_not_tell(
    a: TraversalModel,
    b: TraversalModel,
    programs: ProgramsModel,
    gaps: spec_fn(Position) -> bool,
) -> bool {
    a.due() matches DueModel::Run(run) ==> programs(run) matches Ok(answer) ==> reports_gap(
        a,
        answer.0,
        gaps,
    ) ==> !a.accepts(run.program, answer.0) && !b.accepts(run.program, answer.0)
}

proof fn lemma_twins_look_alike(
    a: TraversalModel,
    b: TraversalModel,
    positions: Seq<Position>,
)
    requires
        a.covered == b.covered,
        a.witnesses == b.witnesses,
    ensures
        a.first_unsettled(positions) == b.first_unsettled(positions),
        forall|id: AccountId| #[trigger] a.is_private(id) == b.is_private(id),
        forall|p: Position| #[trigger] a.unsettled(p) == b.unsettled(p),
    decreases positions.len(),
{
    assert forall|id: AccountId| #[trigger] a.is_private(id) == b.is_private(id) by {}
    if positions.len() > 0 {
        lemma_twins_look_alike(a, b, positions.drop_first());
    }
}

/// Twins wait for the same.
proof fn lemma_twins_due(a: TraversalModel, b: TraversalModel, gaps: spec_fn(Position) -> bool)
    requires
        twins(a, b, gaps),
        forall|p: Position| #[trigger] gaps(p) ==> p.namespace is Some && !a.is_private(p.account_id),
    ensures
        a.due() == b.due(),
{
    if a.failed is None && a.pending.len() > 0 {
        let call = a.pending.last();
        lemma_twins_look_alike(a, b, call.positions);
        lemma_first_unsettled(a, call.positions);
        if a.first_unsettled(call.positions) is None {
            assert(a.run_of(call).pre_states =~= b.run_of(call).pre_states) by {
                assert forall|i: int| 0 <= i < call.positions.len() implies a.input_at(
                    call.granted,
                    call.positions[i],
                ) == b.input_at(call.granted, call.positions[i]) by {
                    let p = call.positions[i];
                    assert(call.positions.contains(p));
                    assert(a.covered.contains(p) || !gaps(p));
                    assert(a.declares(p.account_id) == b.declares(p.account_id));
                    assert(balance_in(a.current, p.account_id) == balance_in(
                        b.current,
                        p.account_id,
                    ));
                    assert(shard_in(a.current, p) == shard_in(b.current, p));
                    assert(a.input_at(call.granted, p) =~= b.input_at(call.granted, p));
                }
            }
        }
    }
}

/// The same diffs keep two worlds in agreement.
proof fn lemma_diffs_agree(
    a: Map<AccountId, AccountModel>,
    b: Map<AccountId, AccountModel>,
    m: TraversalModel,
    gaps: spec_fn(Position) -> bool,
    diffs: Seq<ShardStateDiffModel>,
)
    requires
        worlds_agree(a, b, m, gaps),
    ensures
        diffs_applied(a, diffs) is Some <==> diffs_applied(b, diffs) is Some,
        diffs_applied(a, diffs) is Some ==> worlds_agree(
            diffs_applied(a, diffs)->0,
            diffs_applied(b, diffs)->0,
            m,
            gaps,
        ),
    decreases diffs.len(),
{
    if diffs.len() > 0 {
        let rest = diffs.drop_last();
        let last = diffs.last();
        lemma_diffs_agree(a, b, m, gaps, rest);
        if diffs_applied(a, rest) is Some {
            let x = diffs_applied(a, rest)->0;
            let y = diffs_applied(b, rest)->0;
            let id = last.pre.account_id;
            assert(balance_in(x, id) == balance_in(y, id));
            if moved_balance(balance_in(x, id), last.balance_diff) is Some {
                let balance = moved_balance(balance_in(x, id), last.balance_diff)->0;
                let x1 = world_with_balance(x, id, balance);
                let y1 = world_with_balance(y, id, balance);
                let x2 = world_with_shard(x1, last.pre.position(), last.post_data);
                let y2 = world_with_shard(y1, last.pre.position(), last.post_data);
                lemma_with_balance(x, id, balance);
                lemma_with_balance(y, id, balance);
                lemma_with_shard(x1, last.pre.position(), last.post_data);
                lemma_with_shard(y1, last.pre.position(), last.post_data);
                assert forall|other: AccountId| #[trigger]
                    balance_in(x2, other) == balance_in(y2, other) by {
                    assert(balance_in(x, other) == balance_in(y, other));
                }
                assert forall|other: AccountId| #[trigger] m.is_private(other) implies account_in(
                    x2,
                    other,
                ) == account_in(y2, other) by {
                    assert(account_in(x, other) == account_in(y, other));
                }
                assert forall|p: Position|
                    #![trigger shard_in(x2, p)]
                    #![trigger shard_in(y2, p)]
                    m.covered.contains(p) || !gaps(p) implies shard_in(x2, p) == shard_in(
                    y2,
                    p,
                ) by {
                    assert(shard_in(x, p) == shard_in(y, p));
                    assert(shard_in(x1, p) == shard_in(x, p));
                    assert(shard_in(y1, p) == shard_in(y, p));
                }
            }
        }
    }
}

/// Settling a position alike in two worlds keeps them in agreement.
proof fn lemma_resolution_agrees(
    a: Map<AccountId, AccountModel>,
    b: Map<AccountId, AccountModel>,
    m: TraversalModel,
    after: TraversalModel,
    position: Position,
    answer_a: Option<Seq<u8>>,
    answer_b: Option<Seq<u8>>,
    gaps: spec_fn(Position) -> bool,
)
    requires
        worlds_agree(a, b, m, gaps),
        after.witnesses == m.witnesses,
        after.covered == m.covered.push(position),
        m.unsettled(position),
        (match answer_a {
            Some(bytes) => bytes,
            None => shard_in(a, position),
        }) == (match answer_b {
            Some(bytes) => bytes,
            None => shard_in(b, position),
        }),
    ensures
        worlds_agree(
            match answer_a {
                Some(bytes) => world_with_shard(a, position, bytes),
                None => a,
            },
            match answer_b {
                Some(bytes) => world_with_shard(b, position, bytes),
                None => b,
            },
            after,
            gaps,
        ),
{
    let x = match answer_a {
        Some(bytes) => world_with_shard(a, position, bytes),
        None => a,
    };
    let y = match answer_b {
        Some(bytes) => world_with_shard(b, position, bytes),
        None => b,
    };
    if answer_a is Some {
        lemma_with_shard(a, position, answer_a->0);
    }
    if answer_b is Some {
        lemma_with_shard(b, position, answer_b->0);
    }
    assert forall|id: AccountId| #[trigger] balance_in(x, id) == balance_in(y, id) by {
        assert(balance_in(a, id) == balance_in(b, id));
    }
    assert forall|id: AccountId| #[trigger] after.is_private(id) implies account_in(x, id)
        == account_in(y, id) by {
        assert(m.is_private(id));
        assert(account_in(a, id) == account_in(b, id));
    }
    assert forall|p: Position|
        #![trigger shard_in(x, p)]
        #![trigger shard_in(y, p)]
        after.covered.contains(p) || !gaps(p) implies shard_in(x, p) == shard_in(y, p) by {
        lemma_push_contains(m.covered, position, p);
        if p != position {
            assert(shard_in(a, p) == shard_in(b, p));
        }
    }
}

/// One piece of outside work keeps twins twins.
proof fn lemma_twins_step(
    a: TraversalModel,
    b: TraversalModel,
    resolver_a: ResolverModel,
    resolver_b: ResolverModel,
    programs: ProgramsModel,
    gaps: spec_fn(Position) -> bool,
)
    requires
        twins(a, b, gaps),
        forall|p: Position| #[trigger] gaps(p) ==> p.namespace is Some && !a.is_private(p.account_id),
        gaps_do_not_tell(a, b, programs, gaps),
        b.due() matches DueModel::Resolve(p) ==> settle_alike_at(a, b, resolver_a, resolver_b, p),
    ensures
        twins(
            executed(a, resolver_a, programs, 1),
            executed(b, resolver_b, programs, 1),
            gaps,
        ),
        executed(a, resolver_a, programs, 1).witnesses == a.witnesses,
{
    reveal_with_fuel(executed, 2);
    lemma_twins_due(a, b, gaps);
    let a1 = executed(a, resolver_a, programs, 1);
    let b1 = executed(b, resolver_b, programs, 1);
    match a.due() {
        DueModel::Resolve(position) => {
            lemma_first_unsettled(a, a.pending.last().positions);
            assert(a.unsettled(position));
            lemma_resolution_agrees(
                a.base,
                b.base,
                a,
                a1,
                position,
                resolver_a(position),
                resolver_b(position),
                gaps,
            );
            lemma_resolution_agrees(
                a.current,
                b.current,
                a,
                a1,
                position,
                resolver_a(position),
                resolver_b(position),
                gaps,
            );
        },
        DueModel::Run(run) => match programs(run) {
            Ok((output, granted)) => {
                lemma_twins_answer(a, b, output, granted, gaps);
            },
            Err(error) => {
                lemma_wider_agreement(a.base, b.base, a, a1, gaps);
                lemma_wider_agreement(a.current, b.current, a, a1, gaps);
            },
        },
        _ => {},
    }
}

/// One answer keeps twins twins.
proof fn lemma_twins_answer(
    a: TraversalModel,
    b: TraversalModel,
    output: ProgramOutputModel,
    granted: Seq<Seq<AccountId>>,
    gaps: spec_fn(Position) -> bool,
)
    requires
        twins(a, b, gaps),
        forall|p: Position| #[trigger] gaps(p) ==> p.namespace is Some && !a.is_private(p.account_id),
        a.due() is Run,
        b.due() is Run,
        reports_gap(a, output, gaps) ==> !a.accepts(a.pending.last().program, output)
            && !b.accepts(a.pending.last().program, output),
    ensures
        twins(a.after(Event::Ran(output, granted)), b.after(Event::Ran(output, granted)), gaps),
{
    let a1 = a.after(Event::Ran(output, granted));
    let b1 = b.after(Event::Ran(output, granted));
    let call = a.pending.last();
    let diffs = output.state_diffs;
    if !reports_gap(a, output, gaps) {
        lemma_first_unsettled(a, call.positions);
        assert forall|p: Position| #[trigger] call.positions.contains(p) implies 
            a.covered.contains(p) || !gaps(p) by {
            assert(!a.unsettled(p));
        }
        assert forall|i: int| 0 <= i < diffs.len() implies ({
            let p = (#[trigger] diffs[i]).pre.position();
            a.covered.contains(p) || !gaps(p)
        }) by {
            assert(!(gaps(diffs[i].pre.position()) && a.unsettled(diffs[i].pre.position())));
        }
        lemma_diffs_agree(a.current, b.current, a, gaps, diffs);
        assert(a.accepts(call.program, output) == b.accepts(call.program, output)) by {
            assert forall|i: int| 0 <= i < diffs.len() implies diff_allowed(
                a.current,
                call.program,
                #[trigger] diffs[i],
            ) == diff_allowed(b.current, call.program, diffs[i]) by {
                let pre = diffs[i].pre;
                assert(balance_in(a.current, pre.account_id) == balance_in(
                    b.current,
                    pre.account_id,
                ));
                assert(shard_in(a.current, pre.position()) == shard_in(b.current, pre.position()));
            }
        }
    }
    if a.accepts(call.program, output) {
        lemma_cover_all(a.covered, call.positions);
        lemma_cover_all(cover_all(a.covered, call.positions), reported(diffs));
        assert forall|p: Position| #[trigger] a1.covered.contains(p) implies a.covered.contains(p)
            || !gaps(p) by {
            if reported(diffs).contains(p) {
                let i = reported(diffs).index_of(p);
                assert(diffs[i].pre.position() == p);
            }
        }
        lemma_wider_agreement(a.base, b.base, a, a1, gaps);
        lemma_wider_agreement(a1.current, b1.current, a, a1, gaps);
    } else {
        lemma_wider_agreement(a.base, b.base, a, a1, gaps);
        lemma_wider_agreement(a.current, b.current, a, a1, gaps);
    }
}

/// One piece of outside work keeps twins settling alike.
proof fn lemma_settling_step(
    a: TraversalModel,
    b: TraversalModel,
    resolver_a: ResolverModel,
    resolver_b: ResolverModel,
    programs: ProgramsModel,
    gaps: spec_fn(Position) -> bool,
)
    requires
        twins(a, b, gaps),
        forall|p: Position| #[trigger] gaps(p) ==> p.namespace is Some && !a.is_private(p.account_id),
        gaps_do_not_tell(a, b, programs, gaps),
        settle_alike(a, b, resolver_a, resolver_b),
    ensures
        twins(
            executed(a, resolver_a, programs, 1),
            executed(b, resolver_b, programs, 1),
            gaps,
        ),
        settle_alike(
            executed(a, resolver_a, programs, 1),
            executed(b, resolver_b, programs, 1),
            resolver_a,
            resolver_b,
        ),
        executed(a, resolver_a, programs, 1).witnesses == a.witnesses,
{
    lemma_twins_due(a, b, gaps);
    lemma_first_unsettled(a, a.pending.last().positions);
    lemma_twins_step(a, b, resolver_a, resolver_b, programs, gaps);
    reveal_with_fuel(executed, 2);
    let a1 = executed(a, resolver_a, programs, 1);
    let b1 = executed(b, resolver_b, programs, 1);
    assert forall|p: Position| #[trigger] a1.unsettled(p) implies settle_alike_at(
        a1,
        b1,
        resolver_a,
        resolver_b,
        p,
    ) by {
        assert(a.is_private(p.account_id) == a1.is_private(p.account_id));
        match a.due() {
            DueModel::Resolve(position) => {
                lemma_push_contains(a.covered, position, p);
                assert(a.unsettled(p));
                if resolver_a(position) is Some {
                    law_resolution_merges_one_shard(a, resolver_a(position)->0, p);
                }
                if resolver_b(position) is Some {
                    law_resolution_merges_one_shard(b, resolver_b(position)->0, p);
                }
            },
            DueModel::Run(run) => match programs(run) {
                Ok((output, _)) => {
                    let diffs = output.state_diffs;
                    let call = a.pending.last();
                    if a.accepts(call.program, output) {
                        lemma_cover_all(a.covered, call.positions);
                        lemma_cover_all(cover_all(a.covered, call.positions), reported(diffs));
                        assert(a.unsettled(p));
                        assert(!reported(diffs).contains(p));
                        assert(b.accepts(call.program, output)) by {
                            assert(b1.failed == a1.failed);
                        }
                        lemma_unreported(a.current, diffs, p);
                        lemma_unreported(b.current, diffs, p);
                    } else {
                        assert(a.unsettled(p));
                        assert(!b.accepts(call.program, output)) by {
                            assert(b1.failed == a1.failed);
                        }
                    }
                },
                Err(_) => {
                    assert(a.unsettled(p));
                },
            },
            _ => {
                assert(a.unsettled(p));
            },
        }
    }
}

proof fn lemma_wider_agreement(
    x: Map<AccountId, AccountModel>,
    y: Map<AccountId, AccountModel>,
    m: TraversalModel,
    after: TraversalModel,
    gaps: spec_fn(Position) -> bool,
)
    requires
        worlds_agree(x, y, m, gaps),
        after.witnesses == m.witnesses,
        forall|p: Position| #[trigger]
            after.covered.contains(p) ==> m.covered.contains(p) || !gaps(p),
    ensures
        worlds_agree(x, y, after, gaps),
{
    assert forall|id: AccountId| #[trigger] after.is_private(id) implies account_in(x, id)
        == account_in(y, id) by {
        assert(m.is_private(id));
    }
}

/// Twins stay twins, however far they go, where they settle alike what they are asked for.
proof fn lemma_twins_run(
    a: TraversalModel,
    b: TraversalModel,
    resolver_a: ResolverModel,
    resolver_b: ResolverModel,
    programs: ProgramsModel,
    gaps: spec_fn(Position) -> bool,
    steps: nat,
)
    requires
        twins(a, b, gaps),
        forall|p: Position| #[trigger] gaps(p) ==> p.namespace is Some && !a.is_private(p.account_id),
        forall|n: nat|
            n < steps ==> gaps_do_not_tell(
                #[trigger] executed(a, resolver_a, programs, n),
                executed(b, resolver_b, programs, n),
                programs,
                gaps,
            ),
        forall|n: nat|
            n < steps ==> ((#[trigger] executed(b, resolver_b, programs, n)).due() matches
                DueModel::Resolve(p) ==> settle_alike_at(
                executed(a, resolver_a, programs, n),
                executed(b, resolver_b, programs, n),
                resolver_a,
                resolver_b,
                p,
            )),
    ensures
        twins(
            executed(a, resolver_a, programs, steps),
            executed(b, resolver_b, programs, steps),
            gaps,
        ),
        executed(a, resolver_a, programs, steps).witnesses == a.witnesses,
    decreases steps,
{
    if steps > 0 {
        let n = (steps - 1) as nat;
        let before_a = executed(a, resolver_a, programs, n);
        let before_b = executed(b, resolver_b, programs, n);
        lemma_twins_run(a, b, resolver_a, resolver_b, programs, gaps, n);
        assert forall|p: Position| #[trigger] gaps(p) implies p.namespace is Some
            && !before_a.is_private(p.account_id) by {
            assert(!a.is_private(p.account_id));
        }
        lemma_twins_step(before_a, before_b, resolver_a, resolver_b, programs, gaps);
        reveal_with_fuel(executed, 2);
    }
}

/// Twins that settle alike stay so, however far they go.
proof fn lemma_settling_run(
    a: TraversalModel,
    b: TraversalModel,
    resolver_a: ResolverModel,
    resolver_b: ResolverModel,
    programs: ProgramsModel,
    gaps: spec_fn(Position) -> bool,
    steps: nat,
)
    requires
        twins(a, b, gaps),
        forall|p: Position| #[trigger] gaps(p) ==> p.namespace is Some && !a.is_private(p.account_id),
        settle_alike(a, b, resolver_a, resolver_b),
        forall|n: nat|
            n < steps ==> gaps_do_not_tell(
                #[trigger] executed(a, resolver_a, programs, n),
                executed(b, resolver_b, programs, n),
                programs,
                gaps,
            ),
    ensures
        twins(
            executed(a, resolver_a, programs, steps),
            executed(b, resolver_b, programs, steps),
            gaps,
        ),
        settle_alike(
            executed(a, resolver_a, programs, steps),
            executed(b, resolver_b, programs, steps),
            resolver_a,
            resolver_b,
        ),
        executed(a, resolver_a, programs, steps).witnesses == a.witnesses,
    decreases steps,
{
    if steps > 0 {
        let n = (steps - 1) as nat;
        let before_a = executed(a, resolver_a, programs, n);
        let before_b = executed(b, resolver_b, programs, n);
        lemma_settling_run(a, b, resolver_a, resolver_b, programs, gaps, n);
        assert forall|p: Position| #[trigger] gaps(p) implies p.namespace is Some
            && !before_a.is_private(p.account_id) by {
            assert(!a.is_private(p.account_id));
        }
        lemma_settling_step(before_a, before_b, resolver_a, resolver_b, programs, gaps);
        reveal_with_fuel(executed, 2);
    }
}

/// Twins come to the same.
proof fn lemma_twins_outcome(a: TraversalModel, b: TraversalModel, gaps: spec_fn(Position) -> bool)
    requires
        twins(a, b, gaps),
    ensures
        a.outcome() == b.outcome(),
{
    lemma_twins_rejection(a, b, a.witnesses.len());
    lemma_twins_ids(a, b, a.covered.len());
    assert(a.journal().public_actions =~= b.journal().public_actions) by {
        let ids = a.public_ids(a.covered.len());
        assert forall|i: int| 0 <= i < ids.len() implies a.public_action(ids[i])
            == b.public_action(ids[i]) by {
            let id = ids[i];
            lemma_scoped(a.base, b.base, a, gaps, id);
            lemma_scoped(a.current, b.current, a, gaps, id);
            assert(a.declares(id) == b.declares(id));
        }
    }
    assert(a.journal().private_notes =~= b.journal().private_notes) by {
        assert forall|i: int| 0 <= i < a.witnesses.len() implies a.private_note(a.witnesses[i])
            == b.private_note(a.witnesses[i]) by {
            assert(a.is_private(a.witnesses[i].derived.address));
        }
    }
    assert(a.journal() =~= b.journal());
}

proof fn lemma_scoped(
    x: Map<AccountId, AccountModel>,
    y: Map<AccountId, AccountModel>,
    m: TraversalModel,
    gaps: spec_fn(Position) -> bool,
    id: AccountId,
)
    requires
        worlds_agree(x, y, m, gaps),
    ensures
        scoped(x, m.covered, id) == scoped(y, m.covered, id),
{
    assert(balance_in(x, id) == balance_in(y, id));
    assert forall|namespace: AccountId| #[trigger]
        scoped(x, m.covered, id).shards.contains_key(namespace) implies scoped(
        x,
        m.covered,
        id,
    ).shards[namespace] == scoped(y, m.covered, id).shards[namespace] by {
        let p = Position { account_id: id, namespace: Some(namespace) };
        assert(shard_in(x, p) == shard_in(y, p));
    }
    assert(scoped(x, m.covered, id).shards =~= scoped(y, m.covered, id).shards);
}

proof fn lemma_twins_ids(a: TraversalModel, b: TraversalModel, n: nat)
    requires
        a.covered == b.covered,
        a.witnesses == b.witnesses,
    ensures
        a.public_ids(n) == b.public_ids(n),
    decreases n,
{
    if n > 0 {
        lemma_twins_ids(a, b, (n - 1) as nat);
        assert(a.is_private(a.covered[n - 1].account_id) == b.is_private(
            a.covered[n - 1].account_id,
        ));
    }
}

proof fn lemma_twins_rejection(a: TraversalModel, b: TraversalModel, n: nat)
    requires
        a.covered == b.covered,
        a.witnesses == b.witnesses,
        a.signers == b.signers,
    ensures
        a.rejection(n) == b.rejection(n),
    decreases n,
{
    if n > 0 {
        lemma_twins_rejection(a, b, (n - 1) as nat);
        let id = a.witnesses[n - 1].derived.address;
        assert(a.touches(id) == b.touches(id));
        assert(a.declares(id) == b.declares(id));
    }
}

/// Resolving shards that turn out empty comes to the same as resolving none, also where a run
/// fails: what matters is that the accounts hold nothing at the positions that are asked for on
/// the way.
pub proof fn law_empty_answers_are_no_answers(
    m: TraversalModel,
    programs: ProgramsModel,
    steps: nat,
)
    requires
        forall|n: nat|
            n < steps ==> ((#[trigger] executed(m, no_resolver(), programs, n)).due() matches
                DueModel::Resolve(p) ==> {
                let before = executed(m, no_resolver(), programs, n);
                &&& shard_in(before.base, p) == Seq::<u8>::empty()
                &&& shard_in(before.current, p) == Seq::<u8>::empty()
            }),
    ensures
        executed(m, empty_resolver(), programs, steps).due() == executed(
            m,
            no_resolver(),
            programs,
            steps,
        ).due(),
        executed(m, empty_resolver(), programs, steps).outcome() == executed(
            m,
            no_resolver(),
            programs,
            steps,
        ).outcome(),
{
    let empty = empty_resolver();
    let none = no_resolver();
    let gaps = |p: Position| false;
    lemma_twins_run(m, m, empty, none, programs, gaps, steps);
    let x = executed(m, empty, programs, steps);
    let y = executed(m, none, programs, steps);
    lemma_twins_due(x, y, gaps);
    lemma_twins_outcome(x, y, gaps);
}

/// Resolving shards that turn out empty comes to the same as resolving none, where the accounts
/// that were supplied hold nothing but what is settled.
pub proof fn law_empty_resolution_is_no_resolution(
    m: TraversalModel,
    programs: ProgramsModel,
    steps: nat,
)
    requires
        forall|p: Position| #[trigger]
            m.unsettled(p) ==> shard_in(m.base, p) == Seq::<u8>::empty() && shard_in(m.current, p)
                == Seq::<u8>::empty(),
    ensures
        executed(m, empty_resolver(), programs, steps).due() == executed(
            m,
            no_resolver(),
            programs,
            steps,
        ).due(),
        executed(m, empty_resolver(), programs, steps).outcome() == executed(
            m,
            no_resolver(),
            programs,
            steps,
        ).outcome(),
{
    let empty = empty_resolver();
    let none = no_resolver();
    let gaps = |p: Position| false;
    lemma_settling_run(m, m, empty, none, programs, gaps, steps);
    let x = executed(m, empty, programs, steps);
    let y = executed(m, none, programs, steps);
    lemma_twins_due(x, y, gaps);
    lemma_twins_outcome(x, y, gaps);
}

/// A run that reports only positions that it was called on tells no two traversals apart.
pub proof fn law_reports_of_called_positions_do_not_tell(
    a: TraversalModel,
    b: TraversalModel,
    programs: ProgramsModel,
    gaps: spec_fn(Position) -> bool,
)
    requires
        a.due() matches DueModel::Run(run) ==> programs(run) matches Ok(answer) ==> forall|i: int|
            0 <= i < answer.0.state_diffs.len() ==> a.pending.last().positions.contains(
                (#[trigger] answer.0.state_diffs[i]).pre.position(),
            ),
    ensures
        gaps_do_not_tell(a, b, programs, gaps),
{
    if a.due() is Run && programs(a.due()->Run_0) is Ok {
        let output = programs(a.due()->Run_0)->Ok_0.0;
        assert forall|i: int| 0 <= i < output.state_diffs.len() implies !a.unsettled(
            (#[trigger] output.state_diffs[i]).pre.position(),
        ) by {
            law_runs_wait_for_their_shards(a, output.state_diffs[i].pre.position());
        }
    }
}

/// Opening private accounts fixes them whatever the public ones hold, and leaves the others
/// alone.
proof fn lemma_opened(
    x: Map<AccountId, AccountModel>,
    y: Map<AccountId, AccountModel>,
    m: TraversalModel,
    n: int,
)
    requires
        0 <= n <= m.witnesses.len(),
    ensures
        forall|id: AccountId|
            #![trigger account_in(opened(x, m.witnesses.take(n)), id)]
            (exists|i: int| 0 <= i < n && (#[trigger] m.witnesses[i]).derived.address == id) ==> account_in(
                opened(x, m.witnesses.take(n)),
                id,
            ) == account_in(opened(y, m.witnesses.take(n)), id),
        forall|id: AccountId|
            #![trigger account_in(opened(x, m.witnesses.take(n)), id)]
            !m.is_private(id) ==> account_in(opened(x, m.witnesses.take(n)), id) == account_in(x, id),
    decreases n,
{
    if n > 0 {
        let now = m.witnesses.take(n);
        let rest = m.witnesses.take(n - 1);
        assert(now.drop_last() =~= rest);
        let last = m.witnesses[n - 1];
        assert(now.last() == last);
        lemma_opened(x, y, m, n - 1);
        assert forall|id: AccountId|
            #![trigger account_in(opened(x, now), id)]
            (exists|i: int| 0 <= i < n && (#[trigger] m.witnesses[i]).derived.address
                == id) implies account_in(opened(x, now), id) == account_in(opened(y, now), id) by {
            if id != last.derived.address {
                let i = choose|i: int| 0 <= i < n && (#[trigger] m.witnesses[i]).derived.address == id;
                assert(0 <= i < n - 1);
                assert(account_in(opened(x, rest), id) == account_in(opened(y, rest), id));
            }
        }
        assert forall|id: AccountId|
            #![trigger account_in(opened(x, now), id)]
            !m.is_private(id) implies account_in(opened(x, now), id) == account_in(x, id) by {
            assert(m.witnesses[n - 1].derived.address != id);
            assert(account_in(opened(x, rest), id) == account_in(x, id));
        }
    }
}

/// The public shards where the accounts supplied to a traversal say something else than the
/// chain holds.
pub open spec fn unfetched(
    m: TraversalModel,
    chain: spec_fn(Position) -> Seq<u8>,
) -> spec_fn(Position) -> bool {
    |p: Position|
        p.namespace is Some && !m.is_private(p.account_id) && shard_in(m.base, p) != chain(p)
}

/// A transaction over sparse accounts, with a resolver that answers what the chain holds, comes
/// to the same as the transaction over complete accounts with no resolver, also where a run
/// fails.
///
/// The sparse accounts carry the public balances and the public shards that the root names. Only
/// a run of this very transaction can tell the two apart, and only by reporting a shard that was
/// not fetched and that nothing has settled yet, with the value that one of the two assumes.
pub proof fn law_resolved_sparse_matches_complete(
    sparse: ProvingInputModel,
    complete: ProvingInputModel,
    root: AccountId,
    reach: Set<AccountId>,
    chain: spec_fn(Position) -> Seq<u8>,
    programs: ProgramsModel,
    steps: nat,
)
    requires
        complete == (ProvingInputModel { public_accounts: complete.public_accounts, ..sparse }),
        forall|id: AccountId|
            !started(sparse, root, reach).is_private(id) ==> #[trigger] balance_in(
                sparse.public_accounts,
                id,
            ) == balance_in(complete.public_accounts, id),
        forall|p: Position|
            p.namespace is Some && !started(sparse, root, reach).is_private(p.account_id)
                ==> #[trigger] shard_in(complete.public_accounts, p) == chain(p),
        forall|p: Position|
            p.namespace is Some && !started(sparse, root, reach).is_private(p.account_id)
                && sparse.positions.contains(p) ==> #[trigger] shard_in(sparse.public_accounts, p)
                == chain(p),
        forall|n: nat|
            n < steps ==> gaps_do_not_tell(
                #[trigger] executed(
                    started(sparse, root, reach),
                    chain_resolver(chain),
                    programs,
                    n,
                ),
                executed(started(complete, root, reach), no_resolver(), programs, n),
                programs,
                unfetched(started(sparse, root, reach), chain),
            ),
    ensures
        ({
            let resolved = executed(
                started(sparse, root, reach),
                chain_resolver(chain),
                programs,
                steps,
            );
            let whole = executed(
                started(complete, root, reach),
                no_resolver(),
                programs,
                steps,
            );
            resolved.due() == whole.due() && resolved.outcome() == whole.outcome()
        }),
{
    let a = started(sparse, root, reach);
    let b = started(complete, root, reach);
    let fetch = chain_resolver(chain);
    let none = no_resolver();
    let gaps = unfetched(a, chain);
    let n = a.witnesses.len() as int;
    assert(a.witnesses.take(n) =~= a.witnesses);
    lemma_opened(sparse.public_accounts, complete.public_accounts, a, n);
    lemma_opened(complete.public_accounts, sparse.public_accounts, a, n);
    lemma_cover_all(Seq::empty(), sparse.positions);
    assert forall|id: AccountId| #[trigger] balance_in(a.base, id) == balance_in(b.base, id) by {
        if a.is_private(id) {
            assert(account_in(a.base, id) == account_in(b.base, id));
        } else {
            assert(balance_in(sparse.public_accounts, id) == balance_in(
                complete.public_accounts,
                id,
            ));
            assert(account_in(a.base, id) == account_in(sparse.public_accounts, id));
            assert(account_in(b.base, id) == account_in(complete.public_accounts, id));
        }
    }
    assert forall|p: Position|
        #![trigger shard_in(a.base, p)]
        #![trigger shard_in(b.base, p)]
        p.namespace is Some && !a.is_private(p.account_id) implies shard_in(a.base, p) == shard_in(
        sparse.public_accounts,
        p,
    ) && shard_in(b.base, p) == chain(p) by {
        assert(account_in(a.base, p.account_id) == account_in(
            sparse.public_accounts,
            p.account_id,
        ));
        assert(account_in(b.base, p.account_id) == account_in(
            complete.public_accounts,
            p.account_id,
        ));
        assert(shard_in(complete.public_accounts, p) == chain(p));
    }
    assert(worlds_agree(a.base, b.base, a, gaps)) by {
        assert forall|id: AccountId| #[trigger] a.is_private(id) implies account_in(a.base, id)
            == account_in(b.base, id) by {}
        assert forall|p: Position|
            #![trigger shard_in(a.base, p)]
            #![trigger shard_in(b.base, p)]
            a.covered.contains(p) || !gaps(p) implies shard_in(a.base, p) == shard_in(
            b.base,
            p,
        ) by {
            if p.namespace is Some {
                if a.is_private(p.account_id) {
                    assert(account_in(a.base, p.account_id) == account_in(b.base, p.account_id));
                } else if a.covered.contains(p) {
                    assert(sparse.positions.contains(p));
                    assert(shard_in(sparse.public_accounts, p) == chain(p));
                }
            }
        }
    }
    assert forall|p: Position| #[trigger] a.unsettled(p) implies settle_alike_at(
        a,
        b,
        fetch,
        none,
        p,
    ) by {
        assert(shard_in(b.base, p) == chain(p));
    }
    lemma_settling_run(a, b, fetch, none, programs, gaps, steps);
    let x = executed(a, fetch, programs, steps);
    let y = executed(b, none, programs, steps);
    assert forall|p: Position| #[trigger] gaps(p) implies p.namespace is Some && !x.is_private(
        p.account_id,
    ) by {
        assert(!a.is_private(p.account_id));
    }
    lemma_twins_due(x, y, gaps);
    lemma_twins_outcome(x, y, gaps);
}

/// Chained calls are run in the order in which they were made: the first of them is next, and
/// the calls that waited already come after them all.
pub proof fn law_chained_calls_run_in_order(
    m: TraversalModel,
    output: ProgramOutputModel,
    granted: Seq<Seq<AccountId>>,
    i: int,
)
    requires
        m.due() is Run,
        m.accepts(m.pending.last().program, output),
        0 <= i < output.chained_calls.len(),
    ensures
        ({
            let pending = m.after(Event::Ran(output, granted)).pending;
            let call = pending[pending.len() - 1 - i];
            &&& pending.len() == m.pending.len() - 1 + output.chained_calls.len()
            &&& pending.take(m.pending.len() - 1) == m.pending.drop_last()
            &&& call.program == output.chained_calls[i].program_account_id
            &&& call.caller == Some(m.pending.last().program)
            &&& call.positions == output.chained_calls[i].positions
            &&& call.instruction_data == output.chained_calls[i].instruction_data
        }),
{
    let pending = m.after(Event::Ran(output, granted)).pending;
    assert(pending.take(m.pending.len() - 1) =~= m.pending.drop_last());
}

/// In a chained call an account is authorized exactly where the root declares it, where it is a
/// public account that the seeds of the call derive, or where a witness opens it as one that the
/// caller derives from one of those seeds.
pub proof fn law_seeds_authorize_what_they_derive(
    m: TraversalModel,
    output: ProgramOutputModel,
    granted: Seq<Seq<AccountId>>,
    i: int,
    p: Position,
)
    requires
        m.due() is Run,
        m.accepts(m.pending.last().program, output),
        0 <= i < output.chained_calls.len(),
    ensures
        ({
            let program = m.pending.last().program;
            let seeds = output.chained_calls[i].pda_seeds;
            let after = m.after(Event::Ran(output, granted));
            let call = after.pending[after.pending.len() - 1 - i];
            after.input_at(call.granted, p).is_authorized <==> {
                ||| m.declares(p.account_id)
                ||| granted[i].contains(p.account_id)
                ||| exists|k: int|
                    0 <= k < m.witnesses.len() && (#[trigger] m.witnesses[k]).derived_by(
                        program,
                        seeds,
                    ) && m.witnesses[k].derived.address == p.account_id
            }
        }),
{
    let id = p.account_id;
    let program = m.pending.last().program;
    let seeds = output.chained_calls[i].pda_seeds;
    let after = m.after(Event::Ran(output, granted));
    let call = after.pending[after.pending.len() - 1 - i];
    let own = private_grants(m.witnesses, program, seeds);
    law_grants_are_what_witnesses_name(m.witnesses, program, seeds, id);
    assert(call.granted == granted[i] + own);
    assert(call.granted.contains(id) <==> granted[i].contains(id) || own.contains(id)) by {
        if granted[i].contains(id) {
            assert(call.granted[granted[i].index_of(id)] == id);
        }
        if own.contains(id) {
            assert(call.granted[granted[i].len() + own.index_of(id)] == id);
        }
        if call.granted.contains(id) {
            let k = call.granted.index_of(id);
            if k < granted[i].len() {
                assert(granted[i][k] == id);
            } else {
                assert(own[k - granted[i].len()] == id);
            }
        }
    }
    assert(after.declares(id) == m.declares(id));
}

/// The published state of a private account is the one it holds in the end, with the first nonce
/// of its address where it is new and the nonce that follows where it is updated.
pub proof fn law_published_states_carry_their_nonce(m: TraversalModel, i: int)
    requires
        0 <= i < m.witnesses.len(),
    ensures
        ({
            let witness = m.witnesses[i];
            let held = account_in(m.current, witness.derived.address);
            let published = m.journal().private_notes[i].account;
            &&& published.balance == held.balance
            &&& published.shards == held.shards
            &&& witness.nullifier is Init ==> published.nonce == witness.derived.init_nonce
            &&& witness.nullifier is Update ==> published.nonce == witness.derived.advanced_nonce
        }),
{
}

/// The forwarder's answer to a run is accepted exactly where the account of its own write is
/// fresh, with no balance and no bytes under the forwarder's namespace, and every callee is
/// within reach.
pub proof fn law_forwarder_is_accepted_on_fresh_accounts(
    m: TraversalModel,
    run: RunModel,
    instruction: InstructionModel,
)
    requires
        m.due() == DueModel::Run(run),
        run.pre_states.len() == 1,
    ensures
        m.accepts(
            run.program,
            forwarded(
                run.program,
                run.caller,
                run.pre_states[0],
                instruction,
                run.instruction_data,
            ),
        ) <==> {
            &&& instruction.own_write matches Some(write) ==> balance_in(m.current, write.0) == 0
                && shard_in(
                m.current,
                Position { account_id: write.0, namespace: Some(run.program) },
            ) == Seq::<u8>::empty()
            &&& forall|i: int|
                0 <= i < instruction.calls.len() ==> m.programs.contains(
                    (#[trigger] instruction.calls[i]).0,
                )
        },
{
    let own = run.pre_states[0];
    let output = forwarded(run.program, run.caller, own, instruction, run.instruction_data);
    let diffs = output.state_diffs;
    let call = m.pending.last();
    assert(own == m.input_at(call.granted, call.positions[0]));
    let first = diffs[0];
    assert(first == ShardStateDiffModel::unchanged(own));
    assert(diff_allowed(m.current, run.program, first));
    assert(diffs_applied(m.current, diffs) is Some) by {
        reveal_with_fuel(diffs_applied, 3);
        if instruction.own_write is Some {
            assert(diffs.drop_last().drop_last() =~= Seq::empty());
            assert(diffs.drop_last().last() == first);
            assert(diffs.last() == own_write_diff(run.program, instruction.own_write->0));
        } else {
            assert(diffs.drop_last() =~= Seq::empty());
        }
    }
    assert forall|i: int| 0 <= i < instruction.calls.len() implies (
    #[trigger] output.chained_calls[i]).program_account_id == instruction.calls[i].0 by {}
    if m.accepts(run.program, output) {
        if instruction.own_write is Some {
            assert(diffs[1] == own_write_diff(run.program, instruction.own_write->0));
            assert(diff_allowed(m.current, run.program, diffs[1]));
        }
        assert forall|i: int| 0 <= i < instruction.calls.len() implies m.programs.contains(
            (#[trigger] instruction.calls[i]).0,
        ) by {
            assert(m.programs.contains(output.chained_calls[i].program_account_id));
        }
    }
}

/// A traversal that has not failed is proven exactly where no witness is rejected and some time
/// is admitted by every program.
pub proof fn law_outcome_is_decided_by_witnesses_and_windows(m: TraversalModel)
    requires
        m.failed is None,
    ensures
        m.outcome() is Ok <==> {
            &&& forall|i: int|
                0 <= i < m.witnesses.len() ==> (#[trigger] m.witnesses[i]).rejection(
                    m.touches(m.witnesses[i].derived.address),
                    m.declares(m.witnesses[i].derived.address),
                ) is None
            &&& !m.window.admits_nothing()
        },
        m.outcome() is Err ==> m.outcome()->Err_0 is CircuitProvingError,
{
    lemma_rejection(m, m.witnesses.len());
}

proof fn lemma_rejection(m: TraversalModel, n: nat)
    requires
        n <= m.witnesses.len(),
    ensures
        m.rejection(n) is None <==> forall|i: int|
            0 <= i < n ==> (#[trigger] m.witnesses[i]).rejection(
                m.touches(m.witnesses[i].derived.address),
                m.declares(m.witnesses[i].derived.address),
            ) is None,
    decreases n,
{
    if n > 0 {
        lemma_rejection(m, (n - 1) as nat);
        if m.rejection(n) is None {
            assert forall|i: int| 0 <= i < n implies (#[trigger] m.witnesses[i]).rejection(
                m.touches(m.witnesses[i].derived.address),
                m.declares(m.witnesses[i].derived.address),
            ) is None by {}
        } else {
            assert(m.rejection((n - 1) as nat) is Some || m.witnesses[n - 1].rejection(
                m.touches(m.witnesses[n - 1].derived.address),
                m.declares(m.witnesses[n - 1].derived.address),
            ) is Some);
        }
    }
}

/// Signing for a regular private account is no credential: a transaction that declares such an
/// account authorized while a witness of it shows none is rejected.
pub proof fn law_authorization_needs_a_credential(m: TraversalModel, i: int)
    requires
        m.failed is None,
        0 <= i < m.witnesses.len(),
        m.witnesses[i].kind == (WitnessKind::Regular { ask: None }),
        m.declares(m.witnesses[i].derived.address),
    ensures
        m.outcome() is Err,
        m.outcome()->Err_0 is CircuitProvingError,
{
    law_outcome_is_decided_by_witnesses_and_windows(m);
    assert(m.witnesses[i].rejection(
        m.touches(m.witnesses[i].derived.address),
        m.declares(m.witnesses[i].derived.address),
    ) is Some);
}

/// A credential that does not derive the account's own keys is none for it.
pub proof fn law_foreign_credentials_are_rejected(m: TraversalModel, i: int)
    requires
        m.failed is None,
        0 <= i < m.witnesses.len(),
        !m.witnesses[i].credential_chains(),
    ensures
        m.outcome() is Err,
        m.outcome()->Err_0 is CircuitProvingError,
{
    law_outcome_is_decided_by_witnesses_and_windows(m);
    let witness = m.witnesses[i];
    assert(witness.rejection(m.touches(witness.derived.address), m.declares(witness.derived.address)) is Some);
}

/// A program-derived private account may not be declared authorized at the root.
pub proof fn law_derived_accounts_are_not_authorized_at_the_root(m: TraversalModel, i: int)
    requires
        m.failed is None,
        0 <= i < m.witnesses.len(),
        m.witnesses[i].kind is Pda,
        m.declares(m.witnesses[i].derived.address),
    ensures
        m.outcome() is Err,
        m.outcome()->Err_0 is CircuitProvingError,
{
    law_outcome_is_decided_by_witnesses_and_windows(m);
    let witness = m.witnesses[i];
    assert(witness.rejection(m.touches(witness.derived.address), m.declares(witness.derived.address)) is Some);
}

/// A witness that opens an account outside the transaction is rejected with it.
pub proof fn law_unmatched_witnesses_are_rejected(m: TraversalModel, i: int)
    requires
        m.failed is None,
        0 <= i < m.witnesses.len(),
        !m.touches(m.witnesses[i].derived.address),
    ensures
        m.outcome() is Err,
        m.outcome()->Err_0 is CircuitProvingError,
{
    law_outcome_is_decided_by_witnesses_and_windows(m);
    let witness = m.witnesses[i];
    assert(witness.rejection(m.touches(witness.derived.address), m.declares(witness.derived.address)) is Some);
}

/// Spending a regular private account takes no credential: without one, and without a claim to
/// one, nothing is wrong with its witness.
pub proof fn law_spending_needs_no_credential(m: TraversalModel, i: int)
    requires
        0 <= i < m.witnesses.len(),
        m.witnesses[i].kind == (WitnessKind::Regular { ask: None }),
        m.touches(m.witnesses[i].derived.address),
        !m.declares(m.witnesses[i].derived.address),
    ensures
        m.witnesses[i].rejection(
            m.touches(m.witnesses[i].derived.address),
            m.declares(m.witnesses[i].derived.address),
        ) is None,
{
}

/// A transaction is valid at the times at which every program it ran is.
pub proof fn law_windows_intersect(
    m: TraversalModel,
    output: ProgramOutputModel,
    granted: Seq<Seq<AccountId>>,
    time: u64,
)
    requires
        m.due() is Run,
        m.accepts(m.pending.last().program, output),
    ensures
        m.after(Event::Ran(output, granted)).window.admits(time) <==> m.window.admits(time)
            && output.validity_window.admits(time),
{
}

proof fn lemma_one_position(m: TraversalModel, covered: Seq<Position>, p: Position)
    ensures
        cover_all(covered, seq![p]) == cover(covered, p),
        m.first_unsettled(seq![p]) == if m.unsettled(p) {
            Some(p)
        } else {
            None
        },
{
    reveal_with_fuel(cover_all, 2);
    reveal_with_fuel(TraversalModel::first_unsettled, 2);
    assert(seq![p].drop_last() =~= Seq::empty());
    assert(seq![p].drop_first() =~= Seq::empty());
}

proof fn lemma_one_diff(world: Map<AccountId, AccountModel>, diff: ShardStateDiffModel)
    ensures
        diffs_applied(world, seq![diff]) == diff_applied(world, diff),
        reported(seq![diff]) == seq![diff.pre.position()],
{
    reveal_with_fuel(diffs_applied, 2);
    assert(seq![diff].drop_last() =~= Seq::empty());
    assert(reported(seq![diff]) =~= seq![diff.pre.position()]);
}

/// A diff that moves nothing changes at most the shard that it reports.
proof fn lemma_still_diff(world: Map<AccountId, AccountModel>, diff: ShardStateDiffModel)
    requires
        diff.balance_diff == BalanceDiff::Add(0),
    ensures
        diff_applied(world, diff) is Some,
        forall|q: Position| #[trigger]
            shard_in(diff_applied(world, diff)->0, q) == if q == diff.pre.position()
                && q.namespace is Some {
                diff.post_data
            } else {
                shard_in(world, q)
            },
        forall|id: AccountId| #[trigger]
            balance_in(diff_applied(world, diff)->0, id) == balance_in(world, id),
{
    let id = diff.pre.account_id;
    let balance = balance_in(world, id);
    lemma_with_balance(world, id, balance);
    lemma_with_shard(
        world_with_balance(world, id, balance),
        diff.pre.position(),
        diff.post_data,
    );
}

/// The answer of a program that writes `write` as its own shard where it was called.
pub open spec fn written(run: RunModel, write: Seq<u8>) -> ProgramOutputModel {
    ProgramOutputModel {
        self_account_id: run.program,
        caller_account_id: run.caller,
        instruction_data: run.instruction_data,
        state_diffs: seq![
            ShardStateDiffModel {
                pre: run.pre_states[0],
                balance_diff: BalanceDiff::Add(0),
                post_data: write,
            },
        ],
        chained_calls: Seq::empty(),
        validity_window: ValidityWindow::always(),
    }
}

/// No account is private to a traversal without witnesses, and only signers are authorized.
proof fn lemma_no_witnesses(m: TraversalModel, id: AccountId)
    requires
        m.witnesses.len() == 0,
    ensures
        !m.is_private(id),
        m.declares(id) == m.signers.contains(id),
        m.rejection(0) is None,
{
}

/// The root forwards: its own state is left alone, and the callee's call waits.
proof fn lemma_root_forwards(
    input: ProvingInputModel,
    forwarder: AccountId,
    callee: AccountId,
    account_id: AccountId,
    write: Seq<u8>,
    reach: Set<AccountId>,
)
    requires
        forwarder != callee,
        reach.contains(callee),
        input.positions == seq![Position { account_id, namespace: Some(forwarder) }],
        input.private_witnesses.len() == 0,
    ensures
        ({
            let own = Position { account_id, namespace: Some(forwarder) };
            let start = started(input, forwarder, reach);
            let own_state = start.input_at(Seq::empty(), own);
            let output = forwarded(
                forwarder,
                None,
                own_state,
                forwarded_write(account_id, callee, write),
                input.instruction_data,
            );
            let after = start.after(Event::Ran(output, seq![Seq::empty()]));
            &&& start.due() is Run
            &&& start.due()->Run_0.program == forwarder
            &&& start.due()->Run_0.instruction_data == input.instruction_data
            &&& start.due()->Run_0.pre_states == seq![own_state]
            &&& after == (TraversalModel {
                base: input.public_accounts,
                current: after.current,
                covered: seq![own],
                asked: Seq::empty(),
                signers: input.signers,
                witnesses: input.private_witnesses,
                programs: reach,
                pending: seq![
                    CallModel {
                        program: callee,
                        caller: Some(forwarder),
                        positions: seq![Position { account_id, namespace: Some(callee) }],
                        instruction_data: encoded_bytes(write),
                        granted: Seq::empty(),
                    },
                ],
                window: ValidityWindow::always(),
                failed: None,
            })
            &&& balance_in(after.current, account_id) == balance_in(
                input.public_accounts,
                account_id,
            )
            &&& shard_in(after.current, own) == shard_in(input.public_accounts, own)
        }),
{
    let own = Position { account_id, namespace: Some(forwarder) };
    let instruction = forwarded_write(account_id, callee, write);
    let start = started(input, forwarder, reach);
    lemma_one_position(start, Seq::empty(), own);
    assert(start.covered =~= seq![own]);
    assert(start.covered[0] == own);
    lemma_one_position(start, start.covered, own);
    let call = start.pending.last();
    let root = start.run_of(call);
    assert(start.due() == DueModel::Run(root));
    let own_state = start.input_at(Seq::empty(), own);
    assert(root.pre_states =~= seq![own_state]);
    let output = forwarded(forwarder, None, own_state, instruction, input.instruction_data);
    let same = ShardStateDiffModel::unchanged(own_state);
    assert(output.state_diffs =~= seq![same]);
    lemma_one_diff(start.current, same);
    lemma_still_diff(start.current, same);
    assert(same.pre.position() == own);
    assert(output.chained_calls =~= seq![forwarded_call(instruction.calls[0])]);
    assert(diff_allowed(start.current, forwarder, same));
    assert(start.accepts(forwarder, output));
    let after = start.after(Event::Ran(output, seq![Seq::empty()]));
    assert(after.pending =~= seq![
        CallModel {
            program: callee,
            caller: Some(forwarder),
            positions: seq![Position { account_id, namespace: Some(callee) }],
            instruction_data: encoded_bytes(write),
            granted: Seq::empty(),
        },
    ]);
}

/// The shard that the waiting call opens is asked for and merged in, and the call is run on it.
proof fn lemma_callee_is_fetched_for(
    m: TraversalModel,
    own: Position,
    opened_shard: Position,
    fetched: Seq<u8>,
    call: CallModel,
)
    requires
        m.failed is None,
        m.witnesses.len() == 0,
        m.covered == seq![own],
        m.pending == seq![call],
        call.positions == seq![opened_shard],
        call.granted == Seq::<AccountId>::empty(),
        own != opened_shard,
        opened_shard.namespace is Some,
        opened_shard.account_id == own.account_id,
    ensures
        ({
            let after = m.after(Event::Resolved(Some(fetched)));
            &&& m.due() == DueModel::Resolve(opened_shard)
            &&& after == (TraversalModel {
                base: after.base,
                current: after.current,
                covered: seq![own, opened_shard],
                asked: m.asked.push(opened_shard),
                ..m
            })
            &&& after.due() == DueModel::Run(
                RunModel {
                    program: call.program,
                    caller: call.caller,
                    pre_states: seq![
                        InputModel {
                            account_id: own.account_id,
                            is_authorized: m.signers.contains(own.account_id),
                            balance: balance_in(m.current, own.account_id),
                            namespace: opened_shard.namespace,
                            data: fetched,
                        },
                    ],
                    instruction_data: call.instruction_data,
                },
            )
            &&& balance_in(after.base, own.account_id) == balance_in(m.base, own.account_id)
            &&& balance_in(after.current, own.account_id) == balance_in(m.current, own.account_id)
            &&& shard_in(after.base, own) == shard_in(m.base, own)
            &&& shard_in(after.current, own) == shard_in(m.current, own)
            &&& shard_in(after.base, opened_shard) == fetched
            &&& shard_in(after.current, opened_shard) == fetched
        }),
{
    lemma_one_position(m, m.covered, opened_shard);
    lemma_no_witnesses(m, own.account_id);
    assert(!m.covered.contains(opened_shard));
    assert(m.unsettled(opened_shard));
    let after = m.after(Event::Resolved(Some(fetched)));
    lemma_with_shard(m.base, opened_shard, fetched);
    lemma_with_shard(m.current, opened_shard, fetched);
    assert(after.covered =~= seq![own, opened_shard]);
    assert(after.covered[1] == opened_shard);
    lemma_one_position(after, after.covered, opened_shard);
    lemma_no_witnesses(after, own.account_id);
    assert(after.run_of(call).pre_states =~= seq![
        after.input_at(call.granted, opened_shard),
    ]);
}

/// The callee writes its own shard and the transaction is over.
proof fn lemma_callee_writes(
    m: TraversalModel,
    own: Position,
    opened_shard: Position,
    write: Seq<u8>,
)
    requires
        m.due() is Run,
        m.witnesses.len() == 0,
        m.window == ValidityWindow::always(),
        m.covered == seq![own, opened_shard],
        m.pending.len() == 1,
        m.pending[0].positions == seq![opened_shard],
        m.pending[0].granted == Seq::<AccountId>::empty(),
        own.namespace is Some,
        own != opened_shard,
        opened_shard.namespace == Some(m.pending[0].program),
        opened_shard.account_id == own.account_id,
    ensures
        ({
            let id = own.account_id;
            let end = m.after(Event::Ran(written(m.due()->Run_0, write), Seq::empty()));
            &&& end.due() is Finished
            &&& end.asked == m.asked
            &&& end.outcome() == Ok::<JournalModel, LeeError>(
                JournalModel {
                    public_actions: seq![
                        PublicActionModel {
                            account_id: id,
                            is_authorized: m.signers.contains(id),
                            pre: AccountViewModel {
                                balance: balance_in(m.base, id),
                                shards: Map::empty().insert(
                                    own.namespace->0,
                                    shard_in(m.base, own),
                                ).insert(
                                    opened_shard.namespace->0,
                                    shard_in(m.base, opened_shard),
                                ),
                            },
                            post: AccountViewModel {
                                balance: balance_in(m.current, id),
                                shards: Map::empty().insert(
                                    own.namespace->0,
                                    shard_in(m.current, own),
                                ).insert(opened_shard.namespace->0, write),
                            },
                        },
                    ],
                    private_notes: Seq::empty(),
                    window: ValidityWindow::always(),
                },
            )
        }),
{
    let id = own.account_id;
    let call = m.pending.last();
    let run = m.due()->Run_0;
    let state = m.input_at(call.granted, opened_shard);
    assert(run.pre_states =~= seq![state]);
    let answer = written(run, write);
    let change = ShardStateDiffModel {
        pre: state,
        balance_diff: BalanceDiff::Add(0),
        post_data: write,
    };
    assert(answer.state_diffs =~= seq![change]);
    lemma_one_diff(m.current, change);
    lemma_still_diff(m.current, change);
    assert(change.pre.position() == opened_shard);
    assert(diff_allowed(m.current, call.program, change));
    assert(m.accepts(call.program, answer));
    let end = m.after(Event::Ran(answer, Seq::empty()));
    assert(m.covered[1] == opened_shard);
    lemma_one_position(m, m.covered, opened_shard);
    assert(end.covered == m.covered);
    assert(end.pending =~= Seq::empty());
    assert(end.window == ValidityWindow::always());
    assert(end.window.admits(0));
    lemma_no_witnesses(end, id);
    lemma_two_shards(end.base, own, opened_shard);
    lemma_two_shards(end.current, own, opened_shard);
    assert(end.public_ids(2) =~= seq![id]) by {
        reveal_with_fuel(TraversalModel::public_ids, 3);
        assert(seq![id][0] == id);
        assert(Seq::<AccountId>::empty().push(id) =~= seq![id]);
    }
    let action = end.public_action(id);
    assert(end.journal().public_actions =~= seq![action]);
    assert(end.journal().private_notes =~= Seq::empty());
}

/// A write that the forwarder forwards lands in the callee's namespace, although the transaction
/// named only the forwarder's: the callee's shard is asked for, once, the callee is run on what
/// was fetched, and the journal names both shards as they were and as they became.
pub proof fn law_forwarded_writes_land(
    input: ProvingInputModel,
    forwarder: AccountId,
    callee: AccountId,
    account_id: AccountId,
    write: Seq<u8>,
    fetched: Seq<u8>,
    reach: Set<AccountId>,
)
    requires
        forwarder != callee,
        reach.contains(callee),
        input.positions == seq![Position { account_id, namespace: Some(forwarder) }],
        input.private_witnesses.len() == 0,
        input.instruction_data == forwarded_write(account_id, callee, write).encoded(),
    ensures
        ({
            let own = Position { account_id, namespace: Some(forwarder) };
            let opened_shard = Position { account_id, namespace: Some(callee) };
            let balance = balance_in(input.public_accounts, account_id);
            let supplied = shard_in(input.public_accounts, own);

            let start = started(input, forwarder, reach);
            let root = start.due()->Run_0;
            let forwarding = start.after(
                Event::Ran(
                    forwarded(
                        forwarder,
                        None,
                        root.pre_states[0],
                        forwarded_write(account_id, callee, write),
                        root.instruction_data,
                    ),
                    seq![Seq::empty()],
                ),
            );
            let fetching = forwarding.after(Event::Resolved(Some(fetched)));
            let run = fetching.due()->Run_0;
            let end = fetching.after(Event::Ran(written(run, write), Seq::empty()));

            &&& start.due() is Run
            &&& root.program == forwarder
            &&& root.pre_states == seq![start.input_at(Seq::empty(), own)]
            &&& forwarding.due() == DueModel::Resolve(opened_shard)
            &&& fetching.due() is Run
            &&& run.program == callee
            &&& run.caller == Some(forwarder)
            &&& run.instruction_data == encoded_bytes(write)
            &&& run.pre_states == seq![
                InputModel {
                    account_id,
                    is_authorized: input.signers.contains(account_id),
                    balance,
                    namespace: Some(callee),
                    data: fetched,
                },
            ]
            &&& end.due() is Finished
            &&& end.asked == seq![opened_shard]
            &&& end.outcome() == Ok::<JournalModel, LeeError>(
                JournalModel {
                    public_actions: seq![
                        PublicActionModel {
                            account_id,
                            is_authorized: input.signers.contains(account_id),
                            pre: AccountViewModel {
                                balance,
                                shards: Map::empty().insert(forwarder, supplied).insert(
                                    callee,
                                    fetched,
                                ),
                            },
                            post: AccountViewModel {
                                balance,
                                shards: Map::empty().insert(forwarder, supplied).insert(
                                    callee,
                                    write,
                                ),
                            },
                        },
                    ],
                    private_notes: Seq::empty(),
                    window: ValidityWindow::always(),
                },
            )
        }),
{
    let own = Position { account_id, namespace: Some(forwarder) };
    let opened_shard = Position { account_id, namespace: Some(callee) };
    let start = started(input, forwarder, reach);
    let own_state = start.input_at(Seq::empty(), own);
    lemma_root_forwards(input, forwarder, callee, account_id, write, reach);
    let output = forwarded(
        forwarder,
        None,
        own_state,
        forwarded_write(account_id, callee, write),
        input.instruction_data,
    );
    let forwarding = start.after(Event::Ran(output, seq![Seq::empty()]));
    lemma_callee_is_fetched_for(
        forwarding,
        own,
        opened_shard,
        fetched,
        forwarding.pending.last(),
    );
    let fetching = forwarding.after(Event::Resolved(Some(fetched)));
    lemma_callee_writes(fetching, own, opened_shard, write);
}

/// A view of two shards of one account.
proof fn lemma_two_shards(world: Map<AccountId, AccountModel>, p: Position, q: Position)
    requires
        p.account_id == q.account_id,
        p.namespace is Some,
        q.namespace is Some,
    ensures
        scoped(world, seq![p, q], p.account_id).shards == Map::empty().insert(
            p.namespace->0,
            shard_in(world, p),
        ).insert(q.namespace->0, shard_in(world, q)),
{
    let covered = seq![p, q];
    assert(covered[0] == p && covered[1] == q);
    let view = scoped(world, covered, p.account_id).shards;
    let two = Map::empty().insert(p.namespace->0, shard_in(world, p)).insert(
        q.namespace->0,
        shard_in(world, q),
    );
    assert forall|namespace: AccountId| view.contains_key(namespace) == two.contains_key(
        namespace,
    ) by {
        let wanted = Position { account_id: p.account_id, namespace: Some(namespace) };
        if covered.contains(wanted) {
            let i = covered.index_of(wanted);
            assert(covered[i] == wanted);
        }
    }
    assert(view =~= two);
}

/// Two witnesses with the same fields, accounts and paths taken by what they hold.
pub open spec fn same_witness(a: PrivateWitness, b: PrivateWitness) -> bool {
    &&& a.account@ == b.account@
    &&& a.identifier == b.identifier
    &&& a.kind == b.kind
    &&& a.nullifier@ == b.nullifier@
    &&& a.derived == b.derived
}

/// Two requests that say the same: whoever signed one signed the other, in whatever order and
/// however often, and the rest agrees field by field.
pub open spec fn same_request(a: ProvingInput, b: ProvingInput) -> bool {
    &&& a.positions@ == b.positions@
    &&& forall|id: AccountId| #[trigger] a.signers@.contains(id) <==> b.signers@.contains(id)
    &&& a.public_accounts@ == b.public_accounts@
    &&& a.instruction_data@ == b.instruction_data@
    &&& a.private_witnesses@.len() == b.private_witnesses@.len()
    &&& forall|i: int|
        0 <= i < a.private_witnesses@.len() ==> same_witness(
            #[trigger] a.private_witnesses@[i],
            b.private_witnesses@[i],
        )
}

/// Two traversals that differ at most in how their signers are listed.
spec fn signed_alike(a: TraversalModel, b: TraversalModel) -> bool {
    &&& b == (TraversalModel { signers: b.signers, ..a })
    &&& forall|id: AccountId| #[trigger] a.signers.contains(id) <==> b.signers.contains(id)
}

/// How signers are listed decides nothing.
proof fn lemma_signed_alike(a: TraversalModel, b: TraversalModel)
    requires
        signed_alike(a, b),
    ensures
        a.due() == b.due(),
        a.outcome() == b.outcome(),
{
    assert forall|id: AccountId| #[trigger] a.declares(id) == b.declares(id) by {
        assert(a.signers.contains(id) <==> b.signers.contains(id));
    }
    if a.failed is None && a.pending.len() > 0 {
        let call = a.pending.last();
        lemma_twins_look_alike(a, b, call.positions);
        assert(a.run_of(call).pre_states =~= b.run_of(call).pre_states) by {
            assert forall|i: int| 0 <= i < call.positions.len() implies a.input_at(
                call.granted,
                call.positions[i],
            ) == b.input_at(call.granted, call.positions[i]) by {
                let id = call.positions[i].account_id;
                assert(a.declares(id) == b.declares(id));
            }
        }
    }
    lemma_rejection_alike(a, b, a.witnesses.len());
    lemma_twins_ids(a, b, a.covered.len());
    assert(a.journal().public_actions =~= b.journal().public_actions) by {
        let ids = a.public_ids(a.covered.len());
        assert forall|i: int| 0 <= i < ids.len() implies a.public_action(ids[i])
            == b.public_action(ids[i]) by {
            assert(a.declares(ids[i]) == b.declares(ids[i]));
        }
    }
    assert(a.journal().private_notes =~= b.journal().private_notes);
}

proof fn lemma_rejection_alike(a: TraversalModel, b: TraversalModel, n: nat)
    requires
        signed_alike(a, b),
    ensures
        a.rejection(n) == b.rejection(n),
    decreases n,
{
    if n > 0 {
        lemma_rejection_alike(a, b, (n - 1) as nat);
        let id = a.witnesses[n - 1].derived.address;
        assert(a.signers.contains(id) <==> b.signers.contains(id));
        assert(a.declares(id) == b.declares(id));
        assert(a.touches(id) == b.touches(id));
    }
}

proof fn lemma_signed_alike_run(a: TraversalModel, b: TraversalModel, events: Seq<Event>)
    requires
        signed_alike(a, b),
    ensures
        signed_alike(a.after_all(events), b.after_all(events)),
    decreases events.len(),
{
    if events.len() > 0 {
        lemma_signed_alike_run(a, b, events.drop_last());
        let x = a.after_all(events.drop_last());
        let y = b.after_all(events.drop_last());
        lemma_signed_alike(x, y);
        match (x.due(), events.last()) {
            (DueModel::Run(_), Event::Ran(output, _)) => {
                let program = x.pending.last().program;
                assert(x.accepts(program, output) == y.accepts(program, output));
            },
            _ => {},
        }
    }
}

/// Two requests that say the same wait for the same and come to the same, whatever the programs
/// and the resolver answer.
pub proof fn law_equal_requests_come_to_the_same(
    a: ProvingInput,
    b: ProvingInput,
    root: AccountId,
    reach: Set<AccountId>,
    events: Seq<Event>,
)
    requires
        same_request(a, b),
    ensures
        started(a@, root, reach).after_all(events).due() == started(b@, root, reach).after_all(
            events,
        ).due(),
        started(a@, root, reach).after_all(events).outcome() == started(
            b@,
            root,
            reach,
        ).after_all(events).outcome(),
{
    assert(a@.private_witnesses =~= b@.private_witnesses) by {
        assert forall|i: int| 0 <= i < a@.private_witnesses.len() implies a@.private_witnesses[i]
            == b@.private_witnesses[i] by {
            assert(same_witness(a.private_witnesses@[i], b.private_witnesses@[i]));
        }
    }
    let x = started(a@, root, reach);
    let y = started(b@, root, reach);
    lemma_signed_alike_run(x, y, events);
    lemma_signed_alike(x.after_all(events), y.after_all(events));
}

} // verus!
