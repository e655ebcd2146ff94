//! A sequential reader over the bytes of a verbose payload.
use crate::codec::be_u16_value;
use crate::error::{Layer, UnexpectedEndOfSliceError, VerboseDecodeError};
use vstd::prelude::*;
use vstd::slice::slice_subrange;
use vstd::string::StringSliceAdditionalSpecFns;
use vstd::utf8::{decode_utf8, encode_utf8_decode_utf8, valid_utf8};

verus! {

/// `x`, or `usize::MAX` where `x` does not fit.
pub open spec fn saturate(x: int) -> usize {
    if x > usize::MAX {
        usize::MAX
    } else {
        x as usize
    }
}

/// The error of a read that needs `needed` bytes where only `available`
/// are left, at `offset` bytes from the start.
pub open spec fn end_of_slice(offset: nat, needed: nat, available: nat) -> VerboseDecodeError {
    VerboseDecodeError::UnexpectedEndOfSlice(
        UnexpectedEndOfSliceError {
            layer: Layer::VerboseValue,
            minimum_size: saturate(offset + needed as int),
            actual_size: (offset + available) as usize,
        },
    )
}

/// The 16-bit value of the bytes `b0`, `b1` in the given byte order.
pub open spec fn u16_in_order(b0: u8, b1: u8, is_big_endian: bool) -> u16 {
    if is_big_endian {
        be_u16_value(b0, b1)
    } else {
        be_u16_value(b1, b0)
    }
}

/// A text field is empty or ends with a zero byte.
pub open spec fn is_null_terminated(field: Seq<u8>) -> bool {
    field.len() == 0 || field.last() == 0
}

/// The text of a field: its bytes without the zero terminator.
pub open spec fn text_bytes(field: Seq<u8>) -> Seq<u8> {
    if field.len() == 0 {
        field
    } else {
        field.drop_last()
    }
}

/// Relies on `core::str::from_utf8`: it succeeds exactly on valid UTF-8,
/// and the string it returns holds the bytes given.
#[verifier::external_body]
fn str_from_utf8<'b>(bytes: &'b [u8]) -> (r: Result<&'b str, core::str::Utf8Error>)
    ensures
        r is Ok <==> valid_utf8(bytes@),
        r matches Ok(s) ==> s.spec_bytes() == bytes@,
{
    core::str::from_utf8(bytes)
}

/// Reads the text of a length-prefixed field whose bytes are `field`.
fn read_text<'b>(field: &'b [u8], missing_null: VerboseDecodeError) -> (r: Result<
    &'b str,
    VerboseDecodeError,
>)
    ensures
        !is_null_terminated(field@) ==> r == Err::<&'b str, VerboseDecodeError>(missing_null),
        is_null_terminated(field@) && !valid_utf8(text_bytes(field@)) ==> r matches Err(
            VerboseDecodeError::Utf8(_),
        ),
        is_null_terminated(field@) && valid_utf8(text_bytes(field@)) ==> (r matches Ok(s) && s@
            == decode_utf8(text_bytes(field@))),
{
    if field.len() == 0 {
        let empty = "";
        proof {
            reveal_strlit("");
        }
        assert(decode_utf8(text_bytes(field@)) =~= empty@);
        return Ok(empty);
    }
    if field[field.len() - 1] != 0 {
        return Err(missing_null);
    }
    let text = slice_subrange(field, 0, field.len() - 1);
    assert(text@ =~= text_bytes(field@));
    match str_from_utf8(text) {
        Ok(s) => {
            proof {
                encode_utf8_decode_utf8(s@);
            }
            Ok(s)
        },
        Err(e) => Err(VerboseDecodeError::Utf8(e)),
    }
}

/// Helper for parsing verbose messages: the unparsed rest of the data and
/// the number of bytes read since parsing started.
pub struct FieldSlicer<'a> {
    rest: &'a [u8],
    offset: usize,
}

impl<'a> FieldSlicer<'a> {
    #[verifier::type_invariant]
    closed spec fn inv(self) -> bool {
        self.offset + self.rest@.len() <= usize::MAX
    }

    /// The bytes not read yet.
    pub closed spec fn spec_rest(&self) -> Seq<u8> {
        self.rest@
    }

    /// The bytes read since parsing started, with the start offset.
    pub closed spec fn spec_offset(&self) -> nat {
        self.offset as nat
    }

    /// A reader over `data`, which starts at `offset` bytes from the start
    /// of the verbose data.
    pub fn new(data: &'a [u8], offset: usize) -> (r: FieldSlicer<'a>)
        requires
            offset + data@.len() <= usize::MAX,
        ensures
            r.spec_rest() == data@,
            r.spec_offset() == offset,
    {
        FieldSlicer { rest: data, offset }
    }

    /// The bytes not read yet.
    pub fn rest(&self) -> (r: &'a [u8])
        ensures
            r@ == self.spec_rest(),
    {
        self.rest
    }

    /// The offset of the next byte to read.
    pub fn offset(&self) -> (r: usize)
        ensures
            r == self.spec_offset(),
    {
        self.offset
    }

    fn end_of_slice_error(&self, needed: usize) -> (r: VerboseDecodeError)
        requires
            needed > self.spec_rest().len(),
        ensures
            r == end_of_slice(self.spec_offset(), needed as nat, self.spec_rest().len()),
    {
        proof {
            use_type_invariant(self);
        }
        VerboseDecodeError::UnexpectedEndOfSlice(
            UnexpectedEndOfSliceError {
                layer: Layer::VerboseValue,
                minimum_size: self.offset.saturating_add(needed),
                actual_size: self.offset + self.rest.len(),
            },
        )
    }

    /// Moves past the next `n` bytes, which are returned.
    fn advance(&mut self, n: usize) -> (r: &'a [u8])
        requires
            n <= old(self).spec_rest().len(),
        ensures
            r@ == old(self).spec_rest().take(n as int),
            final(self).spec_rest() == old(self).spec_rest().skip(n as int),
            final(self).spec_offset() == old(self).spec_offset() + n,
    {
        proof {
            use_type_invariant(&*self);
        }
        let rest = self.rest;
        let taken = slice_subrange(rest, 0, n);
        *self = FieldSlicer { rest: slice_subrange(rest, n, rest.len()), offset: self.offset + n };
        taken
    }

    /// Reads one byte.
    pub fn read_u8(&mut self) -> (r: Result<u8, VerboseDecodeError>)
        ensures
            old(self).spec_rest().len() >= 1 ==> {
                &&& r == Ok::<u8, VerboseDecodeError>(old(self).spec_rest()[0])
                &&& final(self).spec_rest() == old(self).spec_rest().skip(1)
                &&& final(self).spec_offset() == old(self).spec_offset() + 1
            },
            old(self).spec_rest().len() < 1 ==> {
                &&& r == Err::<u8, VerboseDecodeError>(
                    end_of_slice(old(self).spec_offset(), 1, old(self).spec_rest().len()),
                )
                &&& *final(self) == *old(self)
            },
    {
        if self.rest.len() < 1 {
            return Err(self.end_of_slice_error(1));
        }
        let bytes = self.advance(1);
        Ok(bytes[0])
    }

    /// Reads two bytes.
    pub fn read_2bytes(&mut self) -> (r: Result<[u8; 2], VerboseDecodeError>)
        ensures
            old(self).spec_rest().len() >= 2 ==> {
                &&& r matches Ok(b) && b@ == old(self).spec_rest().take(2)
                &&& final(self).spec_rest() == old(self).spec_rest().skip(2)
                &&& final(self).spec_offset() == old(self).spec_offset() + 2
            },
            old(self).spec_rest().len() < 2 ==> {
                &&& r == Err::<[u8; 2], VerboseDecodeError>(
                    end_of_slice(old(self).spec_offset(), 2, old(self).spec_rest().len()),
                )
                &&& *final(self) == *old(self)
            },
    {
        if self.rest.len() < 2 {
            return Err(self.end_of_slice_error(2));
        }
        let bytes = self.advance(2);
        let r = [bytes[0], bytes[1]];
        assert(r@ =~= bytes@);
        Ok(r)
    }

    /// Reads a 16-bit value in the given byte order.
    pub fn read_u16(&mut self, is_big_endian: bool) -> (r: Result<u16, VerboseDecodeError>)
        ensures
            old(self).spec_rest().len() >= 2 ==> {
                &&& r == Ok::<u16, VerboseDecodeError>(
                    u16_in_order(
                        old(self).spec_rest()[0],
                        old(self).spec_rest()[1],
                        is_big_endian,
                    ),
                )
                &&& final(self).spec_rest() == old(self).spec_rest().skip(2)
                &&& final(self).spec_offset() == old(self).spec_offset() + 2
            },
            old(self).spec_rest().len() < 2 ==> {
                &&& r == Err::<u16, VerboseDecodeError>(
                    end_of_slice(old(self).spec_offset(), 2, old(self).spec_rest().len()),
                )
                &&& *final(self) == *old(self)
            },
    {
        match self.read_2bytes() {
            Ok(bytes) => {
                assert(bytes@[0] == bytes[0] && bytes@[1] == bytes[1]);
                Ok(u16_from_bytes(bytes[0], bytes[1], is_big_endian))
            },
            Err(e) => Err(e),
        }
    }

    /// Reads a name: a 2-byte length `n` in the given byte order, then `n`
    /// bytes of UTF-8 text ending in a zero byte, which is not part of the
    /// name. A length of 0 gives the empty name. On any error nothing is
    /// consumed.
    pub fn read_var_name(&mut self, is_big_endian: bool) -> (r: Result<&'a str, VerboseDecodeError>)
        ensures
            ({
                let rest = old(self).spec_rest();
                let offset = old(self).spec_offset();
                let n = u16_in_order(rest[0], rest[1], is_big_endian) as nat;
                let field = rest.subrange(2, 2 + n as int);
                &&& rest.len() < 2 ==> r == Err::<&'a str, VerboseDecodeError>(
                    end_of_slice(offset, 2, rest.len()),
                )
                &&& 2 <= rest.len() < 2 + n ==> r == Err::<&'a str, VerboseDecodeError>(
                    end_of_slice(offset, 2 + n, rest.len()),
                )
                &&& rest.len() >= 2 + n && !is_null_terminated(field) ==> r == Err::<
                    &'a str,
                    VerboseDecodeError,
                >(VerboseDecodeError::VariableNameStringMissingNullTermination)
                &&& rest.len() >= 2 + n && is_null_terminated(field) && !valid_utf8(
                    text_bytes(field),
                ) ==> (r matches Err(VerboseDecodeError::Utf8(_)))
                &&& rest.len() >= 2 + n && is_null_terminated(field) && valid_utf8(
                    text_bytes(field),
                ) ==> {
                    &&& r matches Ok(name) && name@ == decode_utf8(text_bytes(field))
                    &&& final(self).spec_rest() == rest.skip(2 + n as int)
                    &&& final(self).spec_offset() == offset + 2 + n
                }
                &&& rest.len() >= 2 && n == 0 ==> {
                    &&& r matches Ok(name) && name@.len() == 0
                    &&& final(self).spec_rest() == rest.skip(2)
                    &&& final(self).spec_offset() == offset + 2
                }
                &&& r is Err ==> *final(self) == *old(self)
            }),
    {
        proof {
            use_type_invariant(&*self);
        }
        let rest = self.rest;
        if rest.len() < 2 {
            return Err(self.end_of_slice_error(2));
        }
        let name_length = u16_from_bytes(rest[0], rest[1], is_big_endian) as usize;
        let total_size = 2 + name_length;
        if rest.len() < total_size {
            return Err(self.end_of_slice_error(total_size));
        }
        let field = slice_subrange(rest, 2, total_size);
        let name = read_text(field, VerboseDecodeError::VariableNameStringMissingNullTermination);
        if let Ok(_) = name {
            self.advance(total_size);
        }
        name
    }

    /// Reads a name and a unit: a 2-byte name length, a 2-byte unit length,
    /// both in the given byte order, then the name bytes and the unit bytes,
    /// each as `read_var_name` reads its text. The name is checked before
    /// the unit. On any error nothing is consumed.
    pub fn read_var_name_and_unit(&mut self, is_big_endian: bool) -> (r: Result<
        (&'a str, &'a str),
        VerboseDecodeError,
    >)
        ensures
            ({
                let rest = old(self).spec_rest();
                let offset = old(self).spec_offset();
                let nl = u16_in_order(rest[0], rest[1], is_big_endian) as nat;
                let ul = u16_in_order(rest[2], rest[3], is_big_endian) as nat;
                let total = 4 + nl + ul;
                let name = rest.subrange(4, 4 + nl as int);
                let unit = rest.subrange(4 + nl as int, total as int);
                &&& rest.len() < 4 ==> r == Err::<(&'a str, &'a str), VerboseDecodeError>(
                    end_of_slice(offset, 4, rest.len()),
                )
                &&& 4 <= rest.len() < total ==> r == Err::<(&'a str, &'a str), VerboseDecodeError>(
                    end_of_slice(offset, total, rest.len()),
                )
                &&& rest.len() >= total ==> if !is_null_terminated(name) {
                    r == Err::<(&'a str, &'a str), VerboseDecodeError>(
                        VerboseDecodeError::VariableNameStringMissingNullTermination,
                    )
                } else if !valid_utf8(text_bytes(name)) {
                    (r matches Err(VerboseDecodeError::Utf8(_)))
                } else if !is_null_terminated(unit) {
                    r == Err::<(&'a str, &'a str), VerboseDecodeError>(
                        VerboseDecodeError::VariableUnitStringMissingNullTermination,
                    )
                } else if !valid_utf8(text_bytes(unit)) {
                    (r matches Err(VerboseDecodeError::Utf8(_)))
                } else {
                    &&& r matches Ok((n, u)) && n@ == decode_utf8(text_bytes(name)) && u@
                        == decode_utf8(text_bytes(unit))
                    &&& final(self).spec_rest() == rest.skip(total as int)
                    &&& final(self).spec_offset() == offset + total
                }
                &&& r is Err ==> *final(self) == *old(self)
            }),
    {
        proof {
            use_type_invariant(&*self);
        }
        let rest = self.rest;
        if rest.len() < 4 {
            return Err(self.end_of_slice_error(4));
        }
        let name_length = u16_from_bytes(rest[0], rest[1], is_big_endian) as usize;
        let unit_length = u16_from_bytes(rest[2], rest[3], is_big_endian) as usize;
        let total_size = 4 + name_length + unit_length;
        if rest.len() < total_size {
            return Err(self.end_of_slice_error(total_size));
        }
        let name_field = slice_subrange(rest, 4, 4 + name_length);
        let name = match read_text(
            name_field,
            VerboseDecodeError::VariableNameStringMissingNullTermination,
        ) {
            Ok(name) => name,
            Err(e) => return Err(e),
        };
        let unit_field = slice_subrange(rest, 4 + name_length, total_size);
        let unit = match read_text(
            unit_field,
            VerboseDecodeError::VariableUnitStringMissingNullTermination,
        ) {
            Ok(unit) => unit,
            Err(e) => return Err(e),
        };
        self.advance(total_size);
        Ok((name, unit))
    }

    /// Reads the next `len` bytes as they are.
    pub fn read_raw(&mut self, len: usize) -> (r: Result<&'a [u8], VerboseDecodeError>)
        ensures
            old(self).spec_rest().len() >= len ==> {
                &&& r matches Ok(b) && b@ == old(self).spec_rest().take(len as int)
                &&& final(self).spec_rest() == old(self).spec_rest().skip(len as int)
                &&& final(self).spec_offset() == old(self).spec_offset() + len
            },
            old(self).spec_rest().len() == len ==> final(self).spec_rest().len() == 0,
            old(self).spec_rest().len() < len ==> {
                &&& r == Err::<&'a [u8], VerboseDecodeError>(
                    end_of_slice(old(self).spec_offset(), len as nat, old(self).spec_rest().len()),
                )
                &&& *final(self) == *old(self)
            },
    {
        if self.rest.len() < len {
            return Err(self.end_of_slice_error(len));
        }
        Ok(self.advance(len))
    }
}

/// The 16-bit value of two bytes in the given byte order.
fn u16_from_bytes(b0: u8, b1: u8, is_big_endian: bool) -> (r: u16)
    ensures
        r == u16_in_order(b0, b1, is_big_endian),
{
    if is_big_endian {
        (b0 as u16) * 256 + (b1 as u16)
    } else {
        (b1 as u16) * 256 + (b0 as u16)
    }
}

} // verus!
