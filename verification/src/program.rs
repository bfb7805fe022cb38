//! What programs are handed, what they answer, and how they call each other.
use crate::data::{copy_bytes, Data};
use crate::id_map::IdMap;
use crate::position::{AccountId, Position};
use vstd::prelude::*;

verus! {

/// An instruction as a program receives it.
pub type InstructionData = Vec<u8>;

/// Seed from which a program derives an account that it controls.
#[derive(Clone, Copy, Debug, PartialEq, Eq)]
pub struct PdaSeed {
    pub value: [u8; 32],
}

impl PdaSeed {
    pub fn new(value: [u8; 32]) -> (seed: Self)
        ensures
            seed.value == value,
    {
        PdaSeed { value }
    }
}

/// The state at one position, as a program is handed it.
#[derive(Debug, PartialEq, Eq)]
pub struct Input {
    pub account_id: AccountId,
    pub is_authorized: bool,
    pub balance: u128,
    pub namespace: Option<AccountId>,
    pub data: Data,
}

/// An input as a value.
#[verifier::ext_equal]
pub struct InputModel {
    pub account_id: AccountId,
    pub is_authorized: bool,
    pub balance: u128,
    pub namespace: Option<AccountId>,
    pub data: Seq<u8>,
}

impl InputModel {
    pub open spec fn position(self) -> Position {
        Position { account_id: self.account_id, namespace: self.namespace }
    }
}

impl View for Input {
    type V = InputModel;

    open spec fn view(&self) -> InputModel {
        InputModel {
            account_id: self.account_id,
            is_authorized: self.is_authorized,
            balance: self.balance,
            namespace: self.namespace,
            data: self.data@,
        }
    }
}

impl Input {
    /// An input that names a shard.
    pub fn named(
        account_id: AccountId,
        is_authorized: bool,
        balance: u128,
        namespace: AccountId,
        data: Data,
    ) -> (input: Self)
        ensures
            input@ == (InputModel {
                account_id,
                is_authorized,
                balance,
                namespace: Some(namespace),
                data: data@,
            }),
            input.account_id == account_id,
            input.is_authorized == is_authorized,
            input.balance == balance,
            input.namespace == Some(namespace),
            input.data@ == data@,
    {
        Input { account_id, is_authorized, balance, namespace: Some(namespace), data }
    }

    pub fn position(&self) -> (position: Position)
        ensures
            position == self@.position(),
            position.account_id == self.account_id,
            position.namespace == self.namespace,
    {
        Position { account_id: self.account_id, namespace: self.namespace }
    }
}

impl Clone for Input {
    fn clone(&self) -> (copy: Self)
        ensures
            copy@ == self@,
            copy.account_id == self.account_id,
            copy.is_authorized == self.is_authorized,
            copy.balance == self.balance,
            copy.namespace == self.namespace,
            copy.data@ == self.data@,
    {
        Input {
            account_id: self.account_id,
            is_authorized: self.is_authorized,
            balance: self.balance,
            namespace: self.namespace,
            data: self.data.clone(),
        }
    }
}

/// How a program changes a balance.
#[derive(Clone, Copy, Debug, PartialEq, Eq, Structural)]
pub enum BalanceDiff {
    Add(u128),
    Sub(u128),
}

/// The balance that `diff` makes of `balance`, where it fits.
pub open spec fn moved_balance(balance: u128, diff: BalanceDiff) -> Option<u128> {
    match diff {
        BalanceDiff::Add(amount) => if balance + amount <= u128::MAX {
            Some((balance + amount) as u128)
        } else {
            None
        },
        BalanceDiff::Sub(amount) => if amount <= balance {
            Some((balance - amount) as u128)
        } else {
            None
        },
    }
}

impl BalanceDiff {
    pub fn apply(self, balance: u128) -> (moved: Option<u128>)
        ensures
            moved == moved_balance(balance, self),
            self matches BalanceDiff::Add(amount) ==> (moved is Some <==> balance + amount
                <= u128::MAX),
            self matches BalanceDiff::Add(amount) ==> (moved matches Some(now) ==> now == balance
                + amount),
            self matches BalanceDiff::Sub(amount) ==> (moved is Some <==> amount <= balance),
            self matches BalanceDiff::Sub(amount) ==> (moved matches Some(now) ==> now + amount
                == balance),
    {
        match self {
            BalanceDiff::Add(amount) => balance.checked_add(amount),
            BalanceDiff::Sub(amount) => balance.checked_sub(amount),
        }
    }
}

/// What a program did at one position: the state it was told of or assumed there, and the
/// change it made.
#[derive(Debug, PartialEq, Eq)]
pub struct ShardStateDiff {
    pub pre: Input,
    pub balance_diff: BalanceDiff,
    pub post_data: Data,
}

/// A state diff as a value.
#[verifier::ext_equal]
pub struct ShardStateDiffModel {
    pub pre: InputModel,
    pub balance_diff: BalanceDiff,
    pub post_data: Seq<u8>,
}

impl ShardStateDiffModel {
    /// The diff of a program that left `pre` alone.
    pub open spec fn unchanged(pre: InputModel) -> ShardStateDiffModel {
        ShardStateDiffModel { pre, balance_diff: BalanceDiff::Add(0), post_data: pre.data }
    }
}

impl View for ShardStateDiff {
    type V = ShardStateDiffModel;

    open spec fn view(&self) -> ShardStateDiffModel {
        ShardStateDiffModel {
            pre: self.pre@,
            balance_diff: self.balance_diff,
            post_data: self.post_data@,
        }
    }
}

impl ShardStateDiff {
    pub fn new(pre: Input, balance_diff: BalanceDiff, post_data: Data) -> (diff: Self)
        ensures
            diff@ == (ShardStateDiffModel { pre: pre@, balance_diff, post_data: post_data@ }),
            diff.pre == pre,
            diff.balance_diff == balance_diff,
            diff.post_data == post_data,
    {
        ShardStateDiff { pre, balance_diff, post_data }
    }

    pub fn unchanged(pre: Input) -> (diff: Self)
        ensures
            diff@ == ShardStateDiffModel::unchanged(pre@),
            diff.pre == pre,
            diff.balance_diff == BalanceDiff::Add(0),
            diff.post_data@ == pre.data@,
    {
        let post_data = pre.data.clone();
        ShardStateDiff { pre, balance_diff: BalanceDiff::Add(0), post_data }
    }
}

/// A call that a program makes once it has answered.
#[derive(Debug)]
pub struct ChainedCall {
    pub program_account_id: AccountId,
    pub instruction_data: InstructionData,
    pub positions: Vec<Position>,
    pub pda_seeds: Vec<PdaSeed>,
}

/// A chained call as a value.
#[verifier::ext_equal]
pub struct ChainedCallModel {
    pub program_account_id: AccountId,
    pub instruction_data: Seq<u8>,
    pub positions: Seq<Position>,
    pub pda_seeds: Seq<PdaSeed>,
}

impl View for ChainedCall {
    type V = ChainedCallModel;

    open spec fn view(&self) -> ChainedCallModel {
        ChainedCallModel {
            program_account_id: self.program_account_id,
            instruction_data: self.instruction_data@,
            positions: self.positions@,
            pda_seeds: self.pda_seeds@,
        }
    }
}

/// The times at which a transaction may be included: from `from` on, and before `to`.
#[derive(Clone, Copy, Debug, PartialEq, Eq)]
pub struct ValidityWindow {
    pub from: Option<u64>,
    pub to: Option<u64>,
}

impl ValidityWindow {
    pub open spec fn admits(self, time: u64) -> bool {
        &&& self.from matches Some(from) ==> from <= time
        &&& self.to matches Some(to) ==> time < to
    }

    /// The window that admits every time.
    pub open spec fn always() -> ValidityWindow {
        ValidityWindow { from: None, to: None }
    }

    pub fn unbounded() -> (window: Self)
        ensures
            window == ValidityWindow::always(),
    {
        ValidityWindow { from: None, to: None }
    }

    /// The later of two starts and the earlier of two ends.
    pub open spec fn meet(self, other: ValidityWindow) -> ValidityWindow {
        ValidityWindow {
            from: match (self.from, other.from) {
                (Some(a), Some(b)) => Some(if a >= b {
                    a
                } else {
                    b
                }),
                (Some(a), None) => Some(a),
                (None, b) => b,
            },
            to: match (self.to, other.to) {
                (Some(a), Some(b)) => Some(if a <= b {
                    a
                } else {
                    b
                }),
                (Some(a), None) => Some(a),
                (None, b) => b,
            },
        }
    }

    /// The times that both windows admit.
    pub fn intersect(self, other: ValidityWindow) -> (window: Self)
        ensures
            window == self.meet(other),
            forall|time: u64| #[trigger]
                window.admits(time) <==> self.admits(time) && other.admits(time),
    {
        let from = match (self.from, other.from) {
            (Some(a), Some(b)) => Some(
                if a >= b {
                    a
                } else {
                    b
                },
            ),
            (Some(a), None) => Some(a),
            (None, b) => b,
        };
        let to = match (self.to, other.to) {
            (Some(a), Some(b)) => Some(
                if a <= b {
                    a
                } else {
                    b
                },
            ),
            (Some(a), None) => Some(a),
            (None, b) => b,
        };
        ValidityWindow { from, to }
    }

    pub open spec fn admits_nothing(self) -> bool {
        forall|time: u64| !self.admits(time)
    }

    pub fn is_empty(self) -> (empty: bool)
        ensures
            empty == self.admits_nothing(),
            empty <==> (self.to matches Some(to) && (to == 0 || (self.from matches Some(from)
                && to <= from))),
    {
        let start: u64 = match self.from {
            Some(from) => from,
            None => 0,
        };
        let empty = match self.to {
            Some(to) => to <= start,
            None => false,
        };
        proof {
            if !empty {
                assert(self.admits(start));
            }
        }
        empty
    }
}

/// The answer of one program run.
#[derive(Debug)]
pub struct ProgramOutput {
    pub self_account_id: AccountId,
    pub caller_account_id: Option<AccountId>,
    pub instruction_data: InstructionData,
    pub state_diffs: Vec<ShardStateDiff>,
    pub chained_calls: Vec<ChainedCall>,
    pub validity_window: ValidityWindow,
}

/// A program's answer as a value.
#[verifier::ext_equal]
pub struct ProgramOutputModel {
    pub self_account_id: AccountId,
    pub caller_account_id: Option<AccountId>,
    pub instruction_data: Seq<u8>,
    pub state_diffs: Seq<ShardStateDiffModel>,
    pub chained_calls: Seq<ChainedCallModel>,
    pub validity_window: ValidityWindow,
}

pub open spec fn diffs_view(diffs: Seq<ShardStateDiff>) -> Seq<ShardStateDiffModel> {
    diffs.map_values(|diff: ShardStateDiff| diff@)
}

pub open spec fn calls_view(calls: Seq<ChainedCall>) -> Seq<ChainedCallModel> {
    calls.map_values(|call: ChainedCall| call@)
}

pub open spec fn inputs_view(inputs: Seq<Input>) -> Seq<InputModel> {
    inputs.map_values(|input: Input| input@)
}

impl View for ProgramOutput {
    type V = ProgramOutputModel;

    open spec fn view(&self) -> ProgramOutputModel {
        ProgramOutputModel {
            self_account_id: self.self_account_id,
            caller_account_id: self.caller_account_id,
            instruction_data: self.instruction_data@,
            state_diffs: diffs_view(self.state_diffs@),
            chained_calls: calls_view(self.chained_calls@),
            validity_window: self.validity_window,
        }
    }
}

impl ProgramOutput {
    /// An answer that chains no call and is valid at every time.
    pub fn new(
        self_account_id: AccountId,
        caller_account_id: Option<AccountId>,
        instruction_data: InstructionData,
        state_diffs: Vec<ShardStateDiff>,
    ) -> (output: Self)
        ensures
            output@ == (ProgramOutputModel {
                self_account_id,
                caller_account_id,
                instruction_data: instruction_data@,
                state_diffs: diffs_view(state_diffs@),
                chained_calls: Seq::empty(),
                validity_window: ValidityWindow::always(),
            }),
            output.self_account_id == self_account_id,
            output.caller_account_id == caller_account_id,
            output.instruction_data == instruction_data,
            output.state_diffs == state_diffs,
            output.chained_calls@.len() == 0,
            output.validity_window.from is None && output.validity_window.to is None,
    {
        let output = ProgramOutput {
            self_account_id,
            caller_account_id,
            instruction_data,
            state_diffs,
            chained_calls: Vec::new(),
            validity_window: ValidityWindow::unbounded(),
        };
        assert(output@.chained_calls =~= Seq::<ChainedCallModel>::empty());
        output
    }

    pub fn with_chained_calls(self, chained_calls: Vec<ChainedCall>) -> (output: Self)
        ensures
            output@ == (ProgramOutputModel { chained_calls: calls_view(chained_calls@), ..self@ }),
            output == (ProgramOutput { chained_calls, ..self }),
    {
        let mut output = self;
        output.chained_calls = chained_calls;
        output
    }

    pub fn with_validity_window(self, validity_window: ValidityWindow) -> (output: Self)
        ensures
            output@ == (ProgramOutputModel { validity_window, ..self@ }),
            output == (ProgramOutput { validity_window, ..self }),
    {
        let mut output = self;
        output.validity_window = validity_window;
        output
    }
}

/// A program: its code, and the address that its code alone determines.
#[derive(Debug, PartialEq, Eq)]
pub struct Program {
    pub id: AccountId,
    pub elf: Vec<u8>,
}

impl Clone for Program {
    fn clone(&self) -> (copy: Self)
        ensures
            copy.id == self.id,
            copy.elf@ == self.elf@,
    {
        Program { id: self.id, elf: copy_bytes(&self.elf) }
    }
}

/// A program at the address it runs at, with the programs that it may reach by chained calls.
#[derive(Debug)]
pub struct ProgramWithDependencies {
    pub program: Program,
    pub account_id: AccountId,
    pub dependencies: IdMap<Program>,
}

impl ProgramWithDependencies {
    pub fn new(program: Program, account_id: AccountId, dependencies: IdMap<Program>) -> (r: Self)
        ensures
            r.program == program,
            r.account_id == account_id,
            r.dependencies == dependencies,
    {
        ProgramWithDependencies { program, account_id, dependencies }
    }
}

} // verus!
