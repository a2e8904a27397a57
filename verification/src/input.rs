//! The operation handed to the guest program, and its shape on the wire.

use crate::operation::OperationName;
use vstd::prelude::*;

verus! {

/// An operation and the canonical encoding of its payload.
#[derive(Debug, Clone, PartialEq, Eq)]
pub struct OperationInput {
    pub op: OperationName,
    pub data: Vec<u8>,
}

/// The wire form of an input: the operation's byte, then the payload.
pub open spec fn spec_encode(op: OperationName, data: Seq<u8>) -> Seq<u8> {
    seq![op.spec_discriminant()] + data
}

/// The operation and payload that a wire form holds; nothing when it is
/// empty or its first byte stands for no operation.
pub open spec fn spec_decode(bytes: Seq<u8>) -> Option<(OperationName, Seq<u8>)> {
    if bytes.len() == 0 {
        None
    } else {
        match OperationName::spec_from_discriminant(bytes[0]) {
            Some(op) => Some((op, bytes.subrange(1, bytes.len() as int))),
            None => None,
        }
    }
}

impl OperationInput {
    /// The wire form: the operation's byte, then the payload.
    pub fn to_bytes(&self) -> (out: Vec<u8>)
        ensures
            out@ == spec_encode(self.op, self.data@),
    {
        let mut out: Vec<u8> = Vec::new();
        out.push(self.op.discriminant());
        let mut k: usize = 0;
        while k < self.data.len()
            invariant
                k <= self.data@.len(),
                out@ == seq![self.op.spec_discriminant()] + self.data@.subrange(0, k as int),
            decreases self.data@.len() - k,
        {
            out.push(self.data[k]);
            k = k + 1;
        }
        assert(self.data@.subrange(0, k as int) == self.data@);
        out
    }

    /// Reads a wire form. There is no input in an empty byte string, nor in
    /// one whose first byte stands for no operation.
    pub fn from_bytes(bytes: &Vec<u8>) -> (out: Option<OperationInput>)
        ensures
            match out {
                Some(input) => spec_decode(bytes@) == Some((input.op, input.data@)),
                None => spec_decode(bytes@) is None,
            },
    {
        if bytes.len() == 0 {
            return None;
        }
        let op = match OperationName::from_discriminant(bytes[0]) {
            Some(op) => op,
            None => {
                return None;
            },
        };
        let mut data: Vec<u8> = Vec::new();
        let mut k: usize = 1;
        while k < bytes.len()
            invariant
                1 <= k <= bytes@.len(),
                data@ == bytes@.subrange(1, k as int),
            decreases bytes@.len() - k,
        {
            data.push(bytes[k]);
            k = k + 1;
        }
        Some(OperationInput { op, data })
    }
}

/// Decoding the wire form of an input gives the input back.
pub proof fn lemma_wire_round_trip(op: OperationName, data: Seq<u8>)
    ensures
        spec_decode(spec_encode(op, data)) == Some((op, data)),
{
    let bytes = spec_encode(op, data);
    op.lemma_discriminant_round_trip(0);
    assert(bytes.subrange(1, bytes.len() as int) == data);
}

} // verus!
