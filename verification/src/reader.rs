//! Reading encoded integers from a byte source, one byte at a time.
//!
//! The length of a varint is not known before its last byte is seen. The
//! [`VarIntProcessor`] gathers the bytes of one varint as they come and says
//! when it is complete; it holds every decision that a reader takes, so that
//! a reader over any kind of source only has to fetch the bytes.

use crate::fixed::{spec_le_value, FixedInt};
use crate::varint::{spec_decode_var, VarInt, MSB};
use crate::wire::spec_token_len;
use crate::wire_lemmas::{lemma_token_len_is_first_terminator, lemma_token_len_skip};
use vstd::prelude::*;
use vstd::slice::slice_subrange;

verus! {

/// Why no integer could be read.
#[derive(Clone, Copy, Debug, PartialEq, Eq, Structural)]
pub enum ReadError {
    /// The source ended before the integer was complete.
    UnexpectedEof,
    /// The bytes read are not the encoding of an integer of the type asked for.
    InvalidData,
}

/// The most bytes that are gathered for one varint.
pub const MAX_VARINT_BYTES: usize = 10;

/// Whether the bytes gathered so far end a varint: there is at least one, and
/// the last has no continuation flag.
pub open spec fn spec_finished(gathered: Seq<u8>) -> bool {
    gathered.len() > 0 && gathered.last() < 128
}

/// What a reader makes of the bytes gathered when it stops reading.
pub open spec fn spec_finish<VI: VarInt>(gathered: Seq<u8>) -> Result<VI, ReadError> {
    if !spec_finished(gathered) {
        Err(ReadError::UnexpectedEof)
    } else {
        match spec_decode_var::<VI>(gathered, true) {
            Some((value, _)) => Ok(value),
            None => Err(ReadError::InvalidData),
        }
    }
}

/// The first ten bytes of `stream`, or all of it where it has fewer: what one
/// read can gather.
pub open spec fn spec_window(stream: Seq<u8>) -> Seq<u8> {
    if stream.len() > 10 {
        stream.take(10)
    } else {
        stream
    }
}

/// What reading one varint from a source that still holds `stream` gives, and
/// how many bytes of the source it takes.
///
/// Where one of the first ten bytes ends a varint, the bytes up to it are
/// taken and decoded. Where ten bytes came without an end, an eleventh is
/// taken and the data is refused. Where the source ends first, everything is
/// taken and the end is reported.
pub open spec fn spec_read_varint<VI: VarInt>(stream: Seq<u8>) -> (Result<VI, ReadError>, nat) {
    match spec_token_len(spec_window(stream)) {
        Some(n) => (
            match spec_decode_var::<VI>(stream.take(n as int), true) {
                Some((value, _)) => Ok(value),
                None => Err(ReadError::InvalidData),
            },
            n,
        ),
        None => if stream.len() > 10 {
            (Err(ReadError::InvalidData), 11)
        } else {
            (Err(ReadError::UnexpectedEof), stream.len())
        },
    }
}

/// What reading one fixed-width integer from a source that still holds
/// `stream` gives, and how many bytes of the source it takes: the bytes of
/// one encoded form, or, where the source has fewer, all of it.
pub open spec fn spec_read_fixedint<FI: FixedInt>(stream: Seq<u8>) -> (Result<FI, ReadError>, nat) {
    if stream.len() < FI::spec_encoded_size() {
        (Err(ReadError::UnexpectedEof), stream.len())
    } else {
        (
            Ok(FI::spec_from_pattern(spec_le_value(stream.take(FI::spec_encoded_size() as int)))),
            FI::spec_encoded_size(),
        )
    }
}

/// The state of reading one varint: the bytes gathered so far, at most ten.
pub struct VarIntProcessor {
    buf: [u8; 10],
    i: usize,
}

impl View for VarIntProcessor {
    type V = Seq<u8>;

    /// The bytes gathered so far.
    closed spec fn view(&self) -> Seq<u8> {
        self.buf@.take(self.i as int)
    }
}

impl Default for VarIntProcessor {
    fn default() -> (p: Self)
        ensures
            p@ == Seq::<u8>::empty(),
    {
        VarIntProcessor::new()
    }
}

impl VarIntProcessor {
    #[verifier::type_invariant]
    spec fn within_capacity(self) -> bool {
        self.i <= 10
    }

    /// A processor that has gathered nothing.
    pub fn new() -> (p: Self)
        ensures
            p@ == Seq::<u8>::empty(),
    {
        let p = VarIntProcessor { buf: [0; 10], i: 0 };
        assert(p@ =~= Seq::<u8>::empty());
        p
    }

    /// Number of bytes gathered so far.
    pub fn len(&self) -> (n: usize)
        ensures
            n == self@.len(),
            n <= MAX_VARINT_BYTES,
    {
        proof {
            use_type_invariant(self);
        }
        self.i
    }

    /// Adds one byte. Fails, and adds nothing, where ten bytes are held
    /// already: no varint is longer, and no source can make the processor
    /// hold more.
    pub fn push(&mut self, b: u8) -> (r: Result<(), ReadError>)
        ensures
            final(self)@.len() <= MAX_VARINT_BYTES,
            match r {
                Ok(_) => old(self)@.len() < MAX_VARINT_BYTES && final(self)@ == old(self)@.push(b),
                Err(e) => e == ReadError::InvalidData && old(self)@.len() == MAX_VARINT_BYTES
                    && final(self)@ == old(self)@,
            },
    {
        proof {
            use_type_invariant(&*self);
        }
        if self.i >= 10 {
            return Err(ReadError::InvalidData);
        }
        let ghost before: Seq<u8> = self@;
        self.buf[self.i] = b;
        self.i += 1;
        assert(self@ =~= before.push(b));
        Ok(())
    }

    /// Whether a whole varint has been gathered.
    pub fn finished(&self) -> (r: bool)
        ensures
            r == spec_finished(self@),
    {
        proof {
            use_type_invariant(self);
        }
        if self.i > 0 {
            let last: u8 = self.buf[self.i - 1];
            assert(last & 0x80 == 0 <==> last < 128) by (bit_vector);
            last & MSB == 0
        } else {
            false
        }
    }

    /// Decodes what has been gathered. There is a value only once a whole
    /// varint has been gathered, and only where it fits the type.
    pub fn decode<VI: VarInt>(&self) -> (r: Option<VI>)
        ensures
            r == match spec_decode_var::<VI>(self@, true) {
                Some((value, _)) => Some(value),
                None => None,
            },
    {
        proof {
            use_type_invariant(self);
        }
        match VI::decode_var(slice_subrange(self.buf.as_slice(), 0, self.i)) {
            Some((value, _)) => Some(value),
            None => None,
        }
    }

    /// One turn of a reader's loop: takes what the source gave, a byte or
    /// `None` at its end, and says whether reading is over.
    ///
    /// At the end of the source, reading is over; that is an error where
    /// nothing was gathered yet. A byte is gathered, which fails where ten
    /// are held already, and reading is over when the byte ends a varint.
    pub fn step(&mut self, read: Option<u8>) -> (r: Result<bool, ReadError>)
        ensures
            final(self)@.len() <= MAX_VARINT_BYTES,
            match read {
                None => final(self)@ == old(self)@ && r == (if old(self)@.len() == 0 {
                    Err::<bool, ReadError>(ReadError::UnexpectedEof)
                } else {
                    Ok(true)
                }),
                Some(b) => if old(self)@.len() >= MAX_VARINT_BYTES {
                    final(self)@ == old(self)@ && r == Err::<bool, ReadError>(
                        ReadError::InvalidData,
                    )
                } else {
                    final(self)@ == old(self)@.push(b) && r == Ok::<bool, ReadError>(b < 128)
                },
            },
    {
        match read {
            None => {
                if self.len() == 0 {
                    Err(ReadError::UnexpectedEof)
                } else {
                    Ok(true)
                }
            },
            Some(b) => {
                match self.push(b) {
                    Err(e) => Err(e),
                    Ok(_) => Ok(self.finished()),
                }
            },
        }
    }

    /// The outcome of a read, once reading is over: the value gathered; the
    /// end of the source, where it came in the middle of a varint; or invalid
    /// data, where the varint does not fit the type.
    pub fn finish<VI: VarInt>(&self) -> (r: Result<VI, ReadError>)
        ensures
            r == spec_finish::<VI>(self@),
    {
        if !self.finished() {
            return Err(ReadError::UnexpectedEof);
        }
        match self.decode::<VI>() {
            Some(value) => Ok(value),
            None => Err(ReadError::InvalidData),
        }
    }
}

/// A source of bytes, seen as the bytes that it still holds.
pub trait ByteSource {
    /// The bytes that the source still holds.
    spec fn spec_remaining(&self) -> Seq<u8>;
}

/// A source of integers in varint encoding.
pub trait VarIntReader: ByteSource {
    /// Reads one varint and returns the integer it stands for.
    ///
    /// Fails with `UnexpectedEof` where the source ends before the varint
    /// does, also where it holds nothing at all, and with `InvalidData` where
    /// the varint does not fit the type or has no end within ten bytes.
    fn read_varint<VI: VarInt>(&mut self) -> (r: Result<VI, ReadError>)
        ensures
            r == spec_read_varint::<VI>(old(self).spec_remaining()).0,
            final(self).spec_remaining() == old(self).spec_remaining().skip(
                spec_read_varint::<VI>(old(self).spec_remaining()).1 as int,
            ),
    ;
}

/// A source of integers in fixed-width encoding.
pub trait FixedIntReader: ByteSource {
    /// Reads one fixed-width integer; how many bytes are read depends on
    /// `FI`. Fails with `UnexpectedEof` where the source holds fewer.
    fn read_fixedint<FI: FixedInt>(&mut self) -> (r: Result<FI, ReadError>)
        ensures
            r == spec_read_fixedint::<FI>(old(self).spec_remaining()).0,
            final(self).spec_remaining() == old(self).spec_remaining().skip(
                spec_read_fixedint::<FI>(old(self).spec_remaining()).1 as int,
            ),
    ;
}

/// Where a byte without continuation flag is the first such among the first
/// ten bytes of a stream, the stream's first varint ends behind it.
proof fn lemma_first_token(stream: Seq<u8>, n: nat)
    requires
        1 <= n <= 10,
        n <= stream.len(),
        forall|k: int| 0 <= k < n - 1 ==> stream[k] >= 128,
        stream[n - 1] < 128,
    ensures
        spec_token_len(spec_window(stream)) == Some(n),
{
    let head = spec_window(stream);
    lemma_token_len_skip(head, (n - 1) as nat);
    assert(head.skip(n - 1)[0] == stream[n - 1]);
}

/// Where each of the first ten bytes of a stream has the continuation flag,
/// no varint ends among them.
proof fn lemma_no_token(stream: Seq<u8>)
    requires
        forall|k: int| 0 <= k < stream.len() && k < 10 ==> stream[k] >= 128,
    ensures
        spec_token_len(spec_window(stream)) is None,
{
    lemma_token_len_is_first_terminator(spec_window(stream));
}

/// A slice is read from its front: what was read is cut off.
impl<'a> ByteSource for &'a [u8] {
    open spec fn spec_remaining(&self) -> Seq<u8> {
        (*self)@
    }
}

impl<'a> VarIntReader for &'a [u8] {
    fn read_varint<VI: VarInt>(&mut self) -> (r: Result<VI, ReadError>) {
        let src: &'a [u8] = *self;
        let mut p = VarIntProcessor::new();
        let mut pos: usize = 0;
        proof {
            assert(src@.take(0) =~= Seq::<u8>::empty());
        }
        loop
            invariant
                src@ == old(self).spec_remaining(),
                pos <= src@.len(),
                pos <= 10,
                p@ == src@.take(pos as int),
                forall|k: int| 0 <= k < pos ==> src@[k] >= 128,
            decreases 11 - pos,
        {
            if pos >= src.len() {
                proof {
                    lemma_no_token(src@);
                    assert(src@.take(pos as int) =~= src@);
                    assert(src@.skip(pos as int) =~= src@.subrange(pos as int, src@.len() as int));
                }
                *self = slice_subrange(src, pos, src.len());
                return match p.step(None) {
                    Err(e) => Err(e),
                    Ok(_) => p.finish::<VI>(),
                };
            }
            let b: u8 = src[pos];
            let ghost before: Seq<u8> = p@;
            pos += 1;
            proof {
                assert(src@.take(pos as int) =~= before.push(b));
                assert(src@.skip(pos as int) =~= src@.subrange(pos as int, src@.len() as int));
            }
            match p.step(Some(b)) {
                Err(e) => {
                    proof {
                        lemma_no_token(src@);
                    }
                    *self = slice_subrange(src, pos, src.len());
                    return Err(e);
                },
                Ok(over) => {
                    if over {
                        proof {
                            lemma_first_token(src@, pos as nat);
                        }
                        *self = slice_subrange(src, pos, src.len());
                        return p.finish::<VI>();
                    }
                },
            }
        }
    }
}

impl<'a> FixedIntReader for &'a [u8] {
    fn read_fixedint<FI: FixedInt>(&mut self) -> (r: Result<FI, ReadError>) {
        let src: &'a [u8] = *self;
        let size: usize = FI::ENCODED_SIZE;
        proof {
            FI::lemma_pattern_in_width(FI::spec_from_pattern(0));
        }
        if src.len() < size {
            proof {
                assert(src@.skip(src@.len() as int) =~= src@.subrange(
                    src@.len() as int,
                    src@.len() as int,
                ));
            }
            *self = slice_subrange(src, src.len(), src.len());
            return Err(ReadError::UnexpectedEof);
        }
        proof {
            assert(src@.skip(size as int) =~= src@.subrange(size as int, src@.len() as int));
            assert(src@.take(size as int) =~= src@.subrange(0, size as int));
        }
        *self = slice_subrange(src, size, src.len());
        match FI::decode_fixed(slice_subrange(src, 0, size)) {
            Some(value) => Ok(value),
            None => Err(ReadError::UnexpectedEof),
        }
    }
}

} // verus!
