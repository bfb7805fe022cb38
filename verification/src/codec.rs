//! The byte form of instructions, written and read with `borsh`.
use crate::position::{AccountId, Position};
use vstd::prelude::*;

verus! {

/// `n` as four bytes, lowest first.
pub open spec fn le32(n: nat) -> Seq<u8> {
    seq![
        (n % 256) as u8,
        ((n / 256) % 256) as u8,
        ((n / 65536) % 256) as u8,
        ((n / 16777216) % 256) as u8,
    ]
}

/// `n` as `count` bytes, lowest first.
pub open spec fn le_bytes(n: nat, count: nat) -> Seq<u8>
    decreases count,
{
    if count == 0 {
        Seq::empty()
    } else {
        seq![(n % 256) as u8] + le_bytes(n / 256, (count - 1) as nat)
    }
}

/// A byte string: its length, then its bytes.
pub open spec fn encoded_bytes(bytes: Seq<u8>) -> Seq<u8> {
    le32(bytes.len()) + bytes
}

/// An address: its bytes. An absent namespace is a zero, a present one follows a one.
pub open spec fn encoded_position(position: Position) -> Seq<u8> {
    position.account_id.value@ + match position.namespace {
        Some(namespace) => seq![1u8] + namespace.value@,
        None => seq![0u8],
    }
}

/// One call of a forwarding instruction: callee, position, instruction.
pub open spec fn encoded_call(call: (AccountId, Position, Seq<u8>)) -> Seq<u8> {
    call.0.value@ + (encoded_position(call.1) + encoded_bytes(call.2))
}

/// Calls one after another.
pub open spec fn encoded_calls(calls: Seq<(AccountId, Position, Seq<u8>)>) -> Seq<u8>
    decreases calls.len(),
{
    if calls.len() == 0 {
        Seq::empty()
    } else {
        encoded_call(calls.first()) + encoded_calls(calls.drop_first())
    }
}

/// A forwarding instruction as a value: an optional write of the forwarder's own, and the
/// calls to chain.
#[verifier::ext_equal]
pub struct InstructionModel {
    pub own_write: Option<(AccountId, Seq<u8>)>,
    pub calls: Seq<(AccountId, Position, Seq<u8>)>,
}

impl InstructionModel {
    /// Every length fits the four bytes that its encoding gives it.
    pub open spec fn encodable(self) -> bool {
        &&& self.own_write matches Some(write) ==> write.1.len() <= u32::MAX
        &&& self.calls.len() <= u32::MAX
        &&& forall|i: int|
            0 <= i < self.calls.len() ==> (#[trigger] self.calls[i]).2.len() <= u32::MAX
    }

    pub open spec fn encoded(self) -> Seq<u8> {
        (match self.own_write {
            Some(write) => seq![1u8] + (write.0.value@ + encoded_bytes(write.1)),
            None => seq![0u8],
        }) + (le32(self.calls.len()) + encoded_calls(self.calls))
    }
}

/// One call in the types that `borsh` knows.
pub type RawCall = ([u8; 32], ([u8; 32], Option<[u8; 32]>), Vec<u8>);

/// A forwarding instruction in the types that `borsh` knows.
pub type RawInstruction = (Option<([u8; 32], Vec<u8>)>, Vec<RawCall>);

pub open spec fn raw_position(raw: ([u8; 32], Option<[u8; 32]>)) -> Position {
    Position {
        account_id: AccountId { value: raw.0 },
        namespace: match raw.1 {
            Some(value) => Some(AccountId { value }),
            None => None,
        },
    }
}

pub open spec fn raw_call(raw: RawCall) -> (AccountId, Position, Seq<u8>) {
    (AccountId { value: raw.0 }, raw_position(raw.1), raw.2@)
}

pub open spec fn raw_instruction(raw: RawInstruction) -> InstructionModel {
    InstructionModel {
        own_write: match raw.0 {
            Some(write) => Some((AccountId { value: write.0 }, write.1@)),
            None => None,
        },
        calls: raw.1@.map_values(|call: RawCall| raw_call(call)),
    }
}

/// The error of `borsh`'s reader and writer.
#[verifier::external_type_specification]
#[verifier::external_body]
pub struct ExBorshError(borsh::io::Error);

/// Calls `borsh::to_vec` on a byte vector. The contract claims that it writes the length as
/// four bytes, lowest first, then the bytes, and that it fails exactly where the length does
/// not fit.
#[verifier::external_body]
pub(crate) fn borsh_write_bytes(bytes: &Vec<u8>) -> (r: Result<Vec<u8>, borsh::io::Error>)
    ensures
        r is Ok <==> bytes@.len() <= u32::MAX,
        r matches Ok(written) ==> written@ == encoded_bytes(bytes@),
{
    borsh::to_vec(bytes)
}

/// Calls `borsh::to_vec` on a forwarding instruction: an option, a vector of tuples, arrays
/// and byte vectors. The contract claims that it writes a zero or a one before an option,
/// four bytes of length before a vector, nothing around arrays and tuples, and that it fails
/// exactly where a length does not fit.
#[verifier::external_body]
pub(crate) fn borsh_write_instruction(raw: &RawInstruction) -> (r: Result<
    Vec<u8>,
    borsh::io::Error,
>)
    ensures
        r is Ok <==> raw_instruction(*raw).encodable(),
        r matches Ok(written) ==> written@ == raw_instruction(*raw).encoded(),
{
    borsh::to_vec(raw)
}

/// Calls `borsh::to_vec` on a seed, an amount and an address. The contract claims that it
/// writes the seed, the amount as sixteen bytes, lowest first, and the address.
#[verifier::external_body]
pub(crate) fn borsh_write_spend(raw: &([u8; 32], u128, [u8; 32])) -> (r: Result<
    Vec<u8>,
    borsh::io::Error,
>)
    ensures
        r is Ok,
        r matches Ok(written) ==> written@ == raw.0@ + le_bytes(raw.1 as nat, 16) + raw.2@,
{
    borsh::to_vec(raw)
}

/// Calls `borsh::from_slice` for a forwarding instruction. The contract claims that it
/// returns a value whose encoding is the whole input, and that it fails only on bytes that
/// encode no value.
#[verifier::external_body]
pub(crate) fn borsh_read_instruction(bytes: &Vec<u8>) -> (r: Result<
    RawInstruction,
    borsh::io::Error,
>)
    ensures
        r matches Ok(raw) ==> raw_instruction(raw).encodable() && raw_instruction(raw).encoded()
            == bytes@,
        r is Err ==> forall|value: InstructionModel|
            value.encodable() ==> #[trigger] value.encoded() != bytes@,
{
    borsh::from_slice(bytes)
}

/// Two texts that begin with parts of one length agree in those parts and in what follows.
proof fn lemma_split(a: Seq<u8>, b: Seq<u8>, s: Seq<u8>, t: Seq<u8>)
    requires
        a.len() == b.len(),
        a + s == b + t,
    ensures
        a == b,
        s == t,
{
    assert((a + s).take(a.len() as int) =~= a);
    assert((b + t).take(b.len() as int) =~= b);
    assert((a + s).skip(a.len() as int) =~= s);
    assert((b + t).skip(b.len() as int) =~= t);
}

proof fn lemma_le32(m: nat, n: nat)
    requires
        m <= u32::MAX,
        n <= u32::MAX,
        le32(m) == le32(n),
    ensures
        m == n,
{
    let a = le32(m);
    let b = le32(n);
    assert(a[0] == b[0] && a[1] == b[1] && a[2] == b[2] && a[3] == b[3]);
    assert(m % 256 == n % 256);
    assert((m / 256) % 256 == (n / 256) % 256);
    assert((m / 65536) % 256 == (n / 65536) % 256);
    assert((m / 16777216) % 256 == (n / 16777216) % 256);
}

proof fn lemma_address(a: AccountId, b: AccountId, s: Seq<u8>, t: Seq<u8>)
    requires
        a.value@ + s == b.value@ + t,
    ensures
        a == b,
        s == t,
{
    lemma_split(a.value@, b.value@, s, t);
    assert(a.value =~= b.value);
}

proof fn lemma_bytes(a: Seq<u8>, b: Seq<u8>, s: Seq<u8>, t: Seq<u8>)
    requires
        a.len() <= u32::MAX,
        b.len() <= u32::MAX,
        encoded_bytes(a) + s == encoded_bytes(b) + t,
    ensures
        a == b,
        s == t,
{
    assert(encoded_bytes(a) + s =~= le32(a.len()) + (a + s));
    assert(encoded_bytes(b) + t =~= le32(b.len()) + (b + t));
    lemma_split(le32(a.len()), le32(b.len()), a + s, b + t);
    lemma_le32(a.len(), b.len());
    lemma_split(a, b, s, t);
}

/// No two byte strings share an encoding, so no two writes share a byte instruction.
pub proof fn law_byte_encoding_is_injective(a: Seq<u8>, b: Seq<u8>)
    requires
        a.len() <= u32::MAX,
        b.len() <= u32::MAX,
        encoded_bytes(a) == encoded_bytes(b),
    ensures
        a == b,
{
    lemma_bytes(a, b, Seq::empty(), Seq::empty());
}

proof fn lemma_position(a: Position, b: Position, s: Seq<u8>, t: Seq<u8>)
    requires
        encoded_position(a) + s == encoded_position(b) + t,
    ensures
        a == b,
        s == t,
{
    let tail_a = match a.namespace {
        Some(namespace) => seq![1u8] + namespace.value@,
        None => seq![0u8],
    };
    let tail_b = match b.namespace {
        Some(namespace) => seq![1u8] + namespace.value@,
        None => seq![0u8],
    };
    assert(encoded_position(a) + s =~= a.account_id.value@ + (tail_a + s));
    assert(encoded_position(b) + t =~= b.account_id.value@ + (tail_b + t));
    lemma_address(a.account_id, b.account_id, tail_a + s, tail_b + t);
    assert((tail_a + s)[0] == tail_a[0]);
    assert((tail_b + t)[0] == tail_b[0]);
    match (a.namespace, b.namespace) {
        (Some(x), Some(y)) => {
            assert(tail_a + s =~= seq![1u8] + (x.value@ + s));
            assert(tail_b + t =~= seq![1u8] + (y.value@ + t));
            lemma_split(seq![1u8], seq![1u8], x.value@ + s, y.value@ + t);
            lemma_address(x, y, s, t);
        },
        (None, None) => {
            lemma_split(seq![0u8], seq![0u8], s, t);
        },
        _ => {},
    }
}

proof fn lemma_calls(
    a: Seq<(AccountId, Position, Seq<u8>)>,
    b: Seq<(AccountId, Position, Seq<u8>)>,
)
    requires
        a.len() == b.len(),
        forall|i: int| 0 <= i < a.len() ==> (#[trigger] a[i]).2.len() <= u32::MAX,
        forall|i: int| 0 <= i < b.len() ==> (#[trigger] b[i]).2.len() <= u32::MAX,
        encoded_calls(a) == encoded_calls(b),
    ensures
        a == b,
    decreases a.len(),
{
    if a.len() > 0 {
        let x = a.first();
        let y = b.first();
        let s = encoded_calls(a.drop_first());
        let t = encoded_calls(b.drop_first());
        assert(encoded_calls(a) =~= x.0.value@ + (encoded_position(x.1) + (encoded_bytes(x.2)
            + s)));
        assert(encoded_calls(b) =~= y.0.value@ + (encoded_position(y.1) + (encoded_bytes(y.2)
            + t)));
        lemma_address(
            x.0,
            y.0,
            encoded_position(x.1) + (encoded_bytes(x.2) + s),
            encoded_position(y.1) + (encoded_bytes(y.2) + t),
        );
        lemma_position(x.1, y.1, encoded_bytes(x.2) + s, encoded_bytes(y.2) + t);
        assert(a[0] == x && b[0] == y);
        lemma_bytes(x.2, y.2, s, t);
        assert forall|i: int| 0 <= i < a.drop_first().len() implies (
        #[trigger] a.drop_first()[i]).2.len() <= u32::MAX by {
            assert(a.drop_first()[i] == a[i + 1]);
        }
        assert forall|i: int| 0 <= i < b.drop_first().len() implies (
        #[trigger] b.drop_first()[i]).2.len() <= u32::MAX by {
            assert(b.drop_first()[i] == b[i + 1]);
        }
        lemma_calls(a.drop_first(), b.drop_first());
        assert(a =~= seq![x] + a.drop_first());
        assert(b =~= seq![y] + b.drop_first());
    } else {
        assert(a =~= b);
    }
}

/// No two instructions share an encoding.
pub proof fn law_encoding_is_injective(a: InstructionModel, b: InstructionModel)
    requires
        a.encodable(),
        b.encodable(),
        a.encoded() == b.encoded(),
    ensures
        a == b,
{
    let rest_a = le32(a.calls.len()) + encoded_calls(a.calls);
    let rest_b = le32(b.calls.len()) + encoded_calls(b.calls);
    assert(a.encoded()[0] == (if a.own_write is Some {
        1u8
    } else {
        0u8
    }));
    assert(b.encoded()[0] == (if b.own_write is Some {
        1u8
    } else {
        0u8
    }));
    match (a.own_write, b.own_write) {
        (Some(x), Some(y)) => {
            assert(a.encoded() =~= seq![1u8] + (x.0.value@ + (encoded_bytes(x.1) + rest_a)));
            assert(b.encoded() =~= seq![1u8] + (y.0.value@ + (encoded_bytes(y.1) + rest_b)));
            lemma_split(
                seq![1u8],
                seq![1u8],
                x.0.value@ + (encoded_bytes(x.1) + rest_a),
                y.0.value@ + (encoded_bytes(y.1) + rest_b),
            );
            lemma_address(x.0, y.0, encoded_bytes(x.1) + rest_a, encoded_bytes(y.1) + rest_b);
            lemma_bytes(x.1, y.1, rest_a, rest_b);
        },
        (None, None) => {
            lemma_split(seq![0u8], seq![0u8], rest_a, rest_b);
        },
        _ => {},
    }
    lemma_split(
        le32(a.calls.len()),
        le32(b.calls.len()),
        encoded_calls(a.calls),
        encoded_calls(b.calls),
    );
    lemma_le32(a.calls.len(), b.calls.len());
    lemma_calls(a.calls, b.calls);
}

} // verus!
