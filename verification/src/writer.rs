//! Writing integers, encoded, to a byte sink.

use crate::fixed::{lemma_le_bytes_len, spec_le_bytes, FixedInt};
use crate::varint::VarInt;
use crate::wire::{spec_encode, spec_required_space};
use crate::wire_lemmas::lemma_required_space_bound;
use vstd::prelude::*;

verus! {

/// `std::io::Error`, named here so that a write can hand on what a sink
/// reports. Nothing is claimed of it: a value of it is carried through and
/// never looked into.
#[verifier::external_type_specification]
#[verifier::external_body]
pub struct ExIoError(std::io::Error);

/// A sink of bytes, seen as the bytes that it has taken.
pub trait ByteSink {
    /// The bytes that the sink has taken so far.
    spec fn spec_written(&self) -> Seq<u8>;
}

/// A sink for integers in varint encoding. Encoding and writing are one step.
pub trait VarIntWriter: ByteSink {
    /// Writes `n` in varint encoding and returns the number of bytes written.
    fn write_varint<VI: VarInt>(&mut self, n: VI) -> (r: Result<usize, std::io::Error>)
        ensures
            r matches Ok(used) ==> {
                &&& used == spec_required_space(n.spec_wire())
                &&& final(self).spec_written() == old(self).spec_written() + spec_encode(
                    n.spec_wire(),
                )
            },
    ;
}

/// A sink for integers in fixed-width encoding.
pub trait FixedIntWriter: ByteSink {
    /// Writes `n` in fixed-width encoding and returns the number of bytes
    /// written.
    fn write_fixedint<FI: FixedInt>(&mut self, n: FI) -> (r: Result<usize, std::io::Error>)
        ensures
            r matches Ok(used) ==> {
                &&& used == FI::spec_encoded_size()
                &&& final(self).spec_written() == old(self).spec_written() + spec_le_bytes(
                    n.spec_pattern(),
                    FI::spec_encoded_size(),
                )
            },
    ;
}

/// A vector takes every write: the bytes are appended, and no write fails.
impl ByteSink for Vec<u8> {
    open spec fn spec_written(&self) -> Seq<u8> {
        self@
    }
}

impl VarIntWriter for Vec<u8> {
    fn write_varint<VI: VarInt>(&mut self, n: VI) -> (r: Result<usize, std::io::Error>)
        ensures
            r is Ok,
    {
        let mut buf: [u8; 10] = [0; 10];
        proof {
            lemma_required_space_bound(n.spec_wire());
        }
        let used: usize = n.encode_var(&mut buf);
        let ghost before: Seq<u8> = self@;
        let mut i: usize = 0;
        while i < used
            invariant
                i <= used <= 10,
                buf@.take(used as int) == spec_encode(n.spec_wire()),
                self@ == before + buf@.take(i as int),
            decreases used - i,
        {
            self.push(buf[i]);
            i += 1;
            assert(buf@.take(i as int) =~= buf@.take(i - 1).push(buf@[i - 1]));
        }
        Ok(used)
    }
}

impl FixedIntWriter for Vec<u8> {
    fn write_fixedint<FI: FixedInt>(&mut self, n: FI) -> (r: Result<usize, std::io::Error>)
        ensures
            r is Ok,
    {
        let mut encoded: Vec<u8> = n.encode_fixed_vec();
        let used: usize = encoded.len();
        proof {
            lemma_le_bytes_len(n.spec_pattern(), FI::spec_encoded_size());
        }
        self.append(&mut encoded);
        Ok(used)
    }
}

} // verus!
