//! Byte shards and their size limit.
use vstd::prelude::*;

verus! {

/// Longest shard, in bytes.
pub const DATA_MAX_LENGTH: usize = 716_800;

/// Copies a byte vector.
pub fn copy_bytes(bytes: &Vec<u8>) -> (copy: Vec<u8>)
    ensures
        copy@ == bytes@,
{
    let copy = bytes.clone();
    assert(copy@ =~= bytes@);
    copy
}

/// The bytes of one shard, at most [`DATA_MAX_LENGTH`] of them.
#[derive(Debug, PartialEq, Eq)]
pub struct Data {
    bytes: Vec<u8>,
}

/// The bytes that were refused as a shard.
#[derive(Debug, PartialEq, Eq)]
pub struct DataTooBig {
    pub bytes: Vec<u8>,
}

impl View for Data {
    type V = Seq<u8>;

    closed spec fn view(&self) -> Seq<u8> {
        self.bytes@
    }
}

impl Data {
    #[verifier::type_invariant]
    spec fn within_limit(self) -> bool {
        self.bytes@.len() <= DATA_MAX_LENGTH
    }

    /// The shard of an account that a program never wrote to.
    pub fn empty() -> (data: Self)
        ensures
            data@ == Seq::<u8>::empty(),
    {
        Data { bytes: Vec::new() }
    }

    /// Takes `bytes` as a shard, or hands them back where they exceed the limit.
    pub fn try_from(bytes: Vec<u8>) -> (r: Result<Self, DataTooBig>)
        ensures
            r is Ok <==> bytes@.len() <= DATA_MAX_LENGTH,
            r matches Ok(data) ==> data@ == bytes@,
            r matches Err(refused) ==> refused.bytes@ == bytes@,
    {
        if bytes.len() <= DATA_MAX_LENGTH {
            Ok(Data { bytes })
        } else {
            Err(DataTooBig { bytes })
        }
    }

    pub fn len(&self) -> (len: usize)
        ensures
            len == self@.len(),
            len <= DATA_MAX_LENGTH,
    {
        proof {
            use_type_invariant(self);
        }
        self.bytes.len()
    }

    pub fn as_ref(&self) -> (bytes: &Vec<u8>)
        ensures
            bytes@ == self@,
            bytes@.len() <= DATA_MAX_LENGTH,
    {
        proof {
            use_type_invariant(self);
        }
        &self.bytes
    }

    /// Says whether two shards hold the same bytes.
    pub fn same_bytes(&self, other: &Data) -> (same: bool)
        ensures
            same == (self@ == other@),
    {
        if self.bytes.len() != other.bytes.len() {
            return false;
        }
        let mut i: usize = 0;
        while i < self.bytes.len()
            invariant
                i <= self.bytes@.len(),
                self.bytes@.len() == other.bytes@.len(),
                forall|j: int| 0 <= j < i ==> self.bytes@[j] == other.bytes@[j],
            decreases self.bytes.len() - i,
        {
            if self.bytes[i] != other.bytes[i] {
                return false;
            }
            i = i + 1;
        }
        assert(self@ =~= other@);
        true
    }
}

impl Clone for Data {
    fn clone(&self) -> (copy: Self)
        ensures
            copy@ == self@,
    {
        proof {
            use_type_invariant(self);
        }
        Data { bytes: copy_bytes(&self.bytes) }
    }
}

} // verus!
