//! Framing: slicing complete messages out of a byte buffer.
use crate::codec::{be_u16_at, read_be_u16};
use crate::error::ReadError;
use crate::header::{decode_header, decode_header_from, header_size_from_type, header_size_of, DltHeader};
use vstd::prelude::*;
use vstd::slice::slice_subrange;

verus! {

/// The smallest payload of a message: a message id in non-verbose mode, or
/// the type info of the first argument in verbose mode.
pub const MIN_PAYLOAD_LEN: usize = 4;

/// The outcome of framing the message at the front of `b`: its total length,
/// or the error that the checks give, cheapest check first.
pub open spec fn frame_check(b: Seq<u8>) -> Result<nat, ReadError> {
    if b.len() < 4 {
        Err(ReadError::UnexpectedEndOfSlice { minimum_size: 4, actual_size: b.len() as usize })
    } else if b.len() < be_u16_at(b, 2) {
        Err(
            ReadError::UnexpectedEndOfSlice {
                minimum_size: be_u16_at(b, 2) as usize,
                actual_size: b.len() as usize,
            },
        )
    } else if be_u16_at(b, 2) < header_size_of(b[0]) + 4 {
        Err(
            ReadError::LengthSmallerThenMinimum {
                required_length: (header_size_of(b[0]) + 4) as usize,
                length: be_u16_at(b, 2) as usize,
            },
        )
    } else {
        Ok(be_u16_at(b, 2) as nat)
    }
}

/// The payload of the framed message `f`: what follows its header.
pub open spec fn frame_payload(f: Seq<u8>) -> Seq<u8> {
    f.skip(header_size_of(f[0]) as int)
}

/// A framed message is a header followed by at least the minimal payload,
/// and its length field gives its length.
pub open spec fn is_frame(f: Seq<u8>) -> bool {
    &&& f.len() >= 4
    &&& be_u16_at(f, 2) == f.len()
    &&& header_size_of(f[0]) + 4 <= f.len()
}

/// A slice containing a DLT header and payload.
#[derive(Clone, Copy, Debug, Eq, PartialEq)]
pub struct DltPacketSlice<'a> {
    slice: &'a [u8],
    header_size: usize,
}

impl<'a> View for DltPacketSlice<'a> {
    type V = Seq<u8>;

    /// The bytes of the message, header and payload.
    closed spec fn view(&self) -> Seq<u8> {
        self.slice@
    }
}

impl<'a> DltPacketSlice<'a> {
    #[verifier::type_invariant]
    closed spec fn inv(self) -> bool {
        &&& is_frame(self.slice@)
        &&& self.header_size == header_size_of(self.slice@[0])
    }

    /// Checks that `slice` starts with a complete, well-formed message and
    /// returns a view of exactly that message. Bytes after it are left out.
    pub fn from_slice(slice: &'a [u8]) -> (r: Result<DltPacketSlice<'a>, ReadError>)
        ensures
            match frame_check(slice@) {
                Ok(len) => r matches Ok(p) && p@ == slice@.take(len as int),
                Err(e) => r == Err::<DltPacketSlice<'a>, ReadError>(e),
            },
    {
        if slice.len() < 4 {
            return Err(ReadError::UnexpectedEndOfSlice { minimum_size: 4, actual_size: slice.len() });
        }
        let length = read_be_u16(slice_subrange(slice, 2, 4)) as usize;
        assert(length == be_u16_at(slice@, 2));
        if slice.len() < length {
            return Err(
                ReadError::UnexpectedEndOfSlice { minimum_size: length, actual_size: slice.len() },
            );
        }
        let header_size = header_size_from_type(slice[0]);
        if length < header_size + MIN_PAYLOAD_LEN {
            return Err(
                ReadError::LengthSmallerThenMinimum {
                    required_length: header_size + MIN_PAYLOAD_LEN,
                    length,
                },
            );
        }
        let frame = slice_subrange(slice, 0, length);
        assert(frame@[0] == slice@[0]);
        assert(frame@[2] == slice@[2] && frame@[3] == slice@[3]);
        Ok(DltPacketSlice { slice: frame, header_size })
    }

    /// The whole message, header and payload.
    pub fn slice(&self) -> (r: &'a [u8])
        ensures
            r@ == self@,
            is_frame(r@),
    {
        proof {
            use_type_invariant(self);
        }
        self.slice
    }

    /// The payload of the message.
    pub fn payload(&self) -> (r: &'a [u8])
        ensures
            r@ == frame_payload(self@),
    {
        proof {
            use_type_invariant(self);
        }
        slice_subrange(self.slice, self.header_size, self.slice.len())
    }

    /// Decodes the header of the message.
    pub fn header(&self) -> (r: DltHeader)
        ensures
            r == decode_header(self@),
    {
        proof {
            use_type_invariant(self);
        }
        decode_header_from(self.slice)
    }
}

/// What the iterator yields for a step, with a message given by its bytes.
pub open spec fn item_view(x: Result<DltPacketSlice, ReadError>) -> Result<Seq<u8>, ReadError> {
    match x {
        Ok(p) => Ok(p@),
        Err(e) => Err(e),
    }
}

proof fn lemma_frame_check_len(b: Seq<u8>)
    ensures
        frame_check(b) matches Ok(len) ==> 4 <= len <= b.len(),
{
}

/// The items that iterating over the buffer `b` yields: each message in
/// turn, until the buffer is used up or a message fails to frame, which ends
/// the sequence with its error.
pub open spec fn slice_items(b: Seq<u8>) -> Seq<Result<Seq<u8>, ReadError>>
    decreases b.len(),
{
    if b.len() == 0 {
        Seq::empty()
    } else {
        match frame_check(b) {
            Ok(len) => if 0 < len <= b.len() {
                seq![Ok(b.take(len as int))] + slice_items(b.skip(len as int))
            } else {
                Seq::empty()
            },
            Err(e) => seq![Err(e)],
        }
    }
}

/// Iterates over the messages that follow each other in a buffer.
#[derive(Clone, Debug, Eq, PartialEq)]
pub struct SliceIterator<'a> {
    slice: &'a [u8],
}

impl<'a> View for SliceIterator<'a> {
    type V = Seq<u8>;

    /// The part of the buffer that is still to be read.
    closed spec fn view(&self) -> Seq<u8> {
        self.slice@
    }
}

impl<'a> SliceIterator<'a> {
    pub fn new(slice: &'a [u8]) -> (r: SliceIterator<'a>)
        ensures
            r@ == slice@,
    {
        SliceIterator { slice }
    }

    /// Yields the next message, or the error of the first message that fails
    /// to frame, after which the sequence ends. `None` once the buffer is
    /// used up.
    pub fn next(&mut self) -> (r: Option<Result<DltPacketSlice<'a>, ReadError>>)
        ensures
            old(self)@.len() == 0 ==> r is None && final(self)@ == old(self)@,
            old(self)@.len() > 0 ==> match frame_check(old(self)@) {
                Ok(len) => {
                    &&& r matches Some(Ok(p)) && p@ == old(self)@.take(len as int)
                    &&& final(self)@ == old(self)@.skip(len as int)
                },
                Err(e) => {
                    &&& r == Some(Err::<DltPacketSlice<'a>, ReadError>(e))
                    &&& final(self)@.len() == 0
                },
            },
            slice_items(old(self)@) == match r {
                None => Seq::empty(),
                Some(x) => seq![item_view(x)] + slice_items(final(self)@),
            },
    {
        proof {
            lemma_frame_check_len(self.slice@);
        }
        if self.slice.len() == 0 {
            return None;
        }
        let result = DltPacketSlice::from_slice(self.slice);
        match &result {
            Err(_) => {
                let len = self.slice.len();
                self.slice = slice_subrange(self.slice, len, len);
            },
            Ok(value) => {
                let len = value.slice().len();
                self.slice = slice_subrange(self.slice, len, self.slice.len());
            },
        }
        Some(result)
    }
}

} // verus!
