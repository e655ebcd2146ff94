//! The standard header and the optional extended header of a DLT message.
use crate::codec::{be_u16_at, be_u16_bytes, be_u32_at, be_u32_bytes, read_be_u16, read_be_u32, write_be_u16, write_be_u32};
use crate::error::{unexpected_eof, ReadError, WriteError};
use vstd::prelude::*;
use vstd::slice::slice_subrange;

verus! {

/// The largest version that the 3 version bits of the header type hold.
pub const MAX_VERSION: u8 = 0b111;

pub const EXTENDED_HEADER_FLAG: u8 = 0b1;
pub const BIG_ENDIAN_FLAG: u8 = 0b10;
pub const ECU_ID_FLAG: u8 = 0b100;
pub const SESSION_ID_FLAG: u8 = 0b1000;
pub const TIMESTAMP_FLAG: u8 = 0b10000;

/// A DLT message header.
#[derive(Debug, PartialEq, Eq, Clone)]
pub struct DltHeader {
    pub big_endian: bool,
    pub version: u8,
    pub message_counter: u8,
    pub length: u16,
    pub ecu_id: Option<u32>,
    pub session_id: Option<u32>,
    pub timestamp: Option<u32>,
    pub extended_header: Option<ExtendedDltHeader>,
}

/// The extended header: verbose flag and message type, argument count,
/// application and context id.
#[derive(Debug, PartialEq, Eq, Clone)]
pub struct ExtendedDltHeader {
    pub message_info: u8,
    pub number_of_arguments: u8,
    pub application_id: u32,
    pub context_id: u32,
}

// ---------------------------------------------------------------------------
// The header type byte

/// Bit 0 of the header type: an extended header follows.
pub open spec fn has_extended_flag(t: u8) -> bool {
    t % 2 == 1
}

/// Bit 1 of the header type: the payload is big endian.
pub open spec fn has_big_endian_flag(t: u8) -> bool {
    (t / 2) % 2 == 1
}

/// Bit 2 of the header type: an ECU id is present.
pub open spec fn has_ecu_id_flag(t: u8) -> bool {
    (t / 4) % 2 == 1
}

/// Bit 3 of the header type: a session id is present.
pub open spec fn has_session_id_flag(t: u8) -> bool {
    (t / 8) % 2 == 1
}

/// Bit 4 of the header type: a timestamp is present.
pub open spec fn has_timestamp_flag(t: u8) -> bool {
    (t / 16) % 2 == 1
}

/// Bits 5 to 7 of the header type: the version.
pub open spec fn version_bits(t: u8) -> u8 {
    t / 32
}

pub open spec fn count_if(b: bool, n: nat) -> nat {
    if b {
        n
    } else {
        0
    }
}

/// Offset of the session id: after the fixed 4 bytes and the ECU id.
pub open spec fn session_id_offset(t: u8) -> nat {
    4 + count_if(has_ecu_id_flag(t), 4)
}

/// Offset of the timestamp.
pub open spec fn timestamp_offset(t: u8) -> nat {
    session_id_offset(t) + count_if(has_session_id_flag(t), 4)
}

/// Offset of the extended header.
pub open spec fn extended_header_offset(t: u8) -> nat {
    timestamp_offset(t) + count_if(has_timestamp_flag(t), 4)
}

/// The size in bytes of a header whose header type is `t`.
pub open spec fn header_size_of(t: u8) -> nat {
    extended_header_offset(t) + count_if(has_extended_flag(t), 10)
}

// ---------------------------------------------------------------------------
// The header as values and as bytes

/// The serialized size of `h`.
pub open spec fn header_len_of(h: DltHeader) -> nat {
    4 + count_if(h.ecu_id is Some, 4) + count_if(h.session_id is Some, 4)
        + count_if(h.timestamp is Some, 4) + count_if(h.extended_header is Some, 10)
}

/// The header type byte that encodes the flags and version of `h`.
pub open spec fn header_type_of(h: DltHeader) -> u8 {
    (count_if(h.extended_header is Some, 1) + count_if(h.big_endian, 2) + count_if(
        h.ecu_id is Some,
        4,
    ) + count_if(h.session_id is Some, 8) + count_if(h.timestamp is Some, 16) + h.version
        * 32) as u8
}

/// Four big-endian bytes for a present field, none for an absent one.
pub open spec fn optional_u32_bytes(v: Option<u32>) -> Seq<u8> {
    match v {
        Some(x) => be_u32_bytes(x),
        None => Seq::empty(),
    }
}

pub open spec fn extended_header_bytes(e: Option<ExtendedDltHeader>) -> Seq<u8> {
    match e {
        Some(x) => seq![x.message_info, x.number_of_arguments] + be_u32_bytes(x.application_id)
            + be_u32_bytes(x.context_id),
        None => Seq::empty(),
    }
}

/// The wire form of `h` (meaningful for a version of at most 7).
pub open spec fn encode_header(h: DltHeader) -> Seq<u8> {
    seq![header_type_of(h), h.message_counter] + be_u16_bytes(h.length) + optional_u32_bytes(
        h.ecu_id,
    ) + optional_u32_bytes(h.session_id) + optional_u32_bytes(h.timestamp)
        + extended_header_bytes(h.extended_header)
}

/// The header that the bytes `b` describe, given that they hold at least the
/// whole header.
pub open spec fn decode_header(b: Seq<u8>) -> DltHeader {
    let t = b[0];
    let e = extended_header_offset(t) as int;
    DltHeader {
        big_endian: has_big_endian_flag(t),
        version: version_bits(t),
        message_counter: b[1],
        length: be_u16_at(b, 2),
        ecu_id: if has_ecu_id_flag(t) {
            Some(be_u32_at(b, 4))
        } else {
            None
        },
        session_id: if has_session_id_flag(t) {
            Some(be_u32_at(b, session_id_offset(t) as int))
        } else {
            None
        },
        timestamp: if has_timestamp_flag(t) {
            Some(be_u32_at(b, timestamp_offset(t) as int))
        } else {
            None
        },
        extended_header: if has_extended_flag(t) {
            Some(
                ExtendedDltHeader {
                    message_info: b[e],
                    number_of_arguments: b[e + 1],
                    application_id: be_u32_at(b, e + 2),
                    context_id: be_u32_at(b, e + 6),
                },
            )
        } else {
            None
        },
    }
}

/// The header at the front of `b`, or `None` where `b` ends before the header
/// that its first byte announces is complete.
pub open spec fn parse_header(b: Seq<u8>) -> Option<DltHeader> {
    if b.len() >= 1 && b.len() >= header_size_of(b[0]) {
        Some(decode_header(b))
    } else {
        None
    }
}

/// Verbose mode is only expressible through the extended header.
pub open spec fn is_verbose_header(h: DltHeader) -> bool {
    match h.extended_header {
        Some(e) => e.message_info % 2 == 1,
        None => false,
    }
}

// ---------------------------------------------------------------------------
// Bit level facts

proof fn lemma_flag_bits(t: u8)
    ensures
        (t & EXTENDED_HEADER_FLAG != 0) == has_extended_flag(t),
        (t & BIG_ENDIAN_FLAG != 0) == has_big_endian_flag(t),
        (t & ECU_ID_FLAG != 0) == has_ecu_id_flag(t),
        (t & SESSION_ID_FLAG != 0) == has_session_id_flag(t),
        (t & TIMESTAMP_FLAG != 0) == has_timestamp_flag(t),
        ((t >> 5u8) & MAX_VERSION) == version_bits(t),
{
    assert((t & 1u8 != 0) == (t % 2 == 1)) by (bit_vector);
    assert((t & 2u8 != 0) == ((t / 2) % 2 == 1)) by (bit_vector);
    assert((t & 4u8 != 0) == ((t / 4) % 2 == 1)) by (bit_vector);
    assert((t & 8u8 != 0) == ((t / 8) % 2 == 1)) by (bit_vector);
    assert((t & 16u8 != 0) == ((t / 16) % 2 == 1)) by (bit_vector);
    assert(((t >> 5u8) & 7u8) == t / 32) by (bit_vector);
}

/// Setting a bit above every bit of `r` adds its value.
proof fn lemma_or_above(r: u8, bit: u8)
    requires
        bit == 1 || bit == 2 || bit == 4 || bit == 8 || bit == 16,
        r < bit,
    ensures
        r | bit == r + bit,
{
    assert(r < 1u8 ==> r | 1u8 == r + 1u8) by (bit_vector);
    assert(r < 2u8 ==> r | 2u8 == r + 2u8) by (bit_vector);
    assert(r < 4u8 ==> r | 4u8 == r + 4u8) by (bit_vector);
    assert(r < 8u8 ==> r | 8u8 == r + 8u8) by (bit_vector);
    assert(r < 16u8 ==> r | 16u8 == r + 16u8) by (bit_vector);
}

proof fn lemma_or_version(r: u8, v: u8)
    requires
        r < 32,
        v <= 7,
    ensures
        r | ((v << 5u8) & 0b1110_0000u8) == r + v * 32,
{
    assert(r < 32 && v <= 7 ==> r | ((v << 5u8) & 0b1110_0000u8) == r + v * 32) by (bit_vector);
}

// ---------------------------------------------------------------------------
// Executable code

/// The size in bytes of a header whose header type is `header_type`.
pub fn header_size_from_type(header_type: u8) -> (r: usize)
    ensures
        r == header_size_of(header_type),
        4 <= r <= 26,
{
    proof {
        lemma_flag_bits(header_type);
    }
    let mut size: usize = 4;
    if 0 != header_type & ECU_ID_FLAG {
        size += 4;
    }
    if 0 != header_type & SESSION_ID_FLAG {
        size += 4;
    }
    if 0 != header_type & TIMESTAMP_FLAG {
        size += 4;
    }
    if 0 != header_type & EXTENDED_HEADER_FLAG {
        size += 10;
    }
    size
}

fn read_u32_at(bytes: &[u8], offset: usize) -> (r: u32)
    requires
        offset + 4 <= bytes.len(),
    ensures
        r == be_u32_at(bytes@, offset as int),
{
    let field = slice_subrange(bytes, offset, offset + 4);
    read_be_u32(field)
}

/// Decodes the header at the front of `bytes`, which holds it whole.
pub(crate) fn decode_header_from(bytes: &[u8]) -> (r: DltHeader)
    requires
        bytes@.len() >= 1,
        bytes@.len() >= header_size_of(bytes@[0]),
    ensures
        r == decode_header(bytes@),
{
    let header_type = bytes[0];
    proof {
        lemma_flag_bits(header_type);
    }
    let length = read_be_u16(slice_subrange(bytes, 2, 4));
    let mut offset: usize = 4;
    let ecu_id = if 0 != header_type & ECU_ID_FLAG {
        let v = read_u32_at(bytes, offset);
        offset += 4;
        Some(v)
    } else {
        None
    };
    assert(offset == session_id_offset(header_type));
    let session_id = if 0 != header_type & SESSION_ID_FLAG {
        let v = read_u32_at(bytes, offset);
        offset += 4;
        Some(v)
    } else {
        None
    };
    assert(offset == timestamp_offset(header_type));
    let timestamp = if 0 != header_type & TIMESTAMP_FLAG {
        let v = read_u32_at(bytes, offset);
        offset += 4;
        Some(v)
    } else {
        None
    };
    assert(offset == extended_header_offset(header_type));
    let extended_header = if 0 != header_type & EXTENDED_HEADER_FLAG {
        Some(
            ExtendedDltHeader {
                message_info: bytes[offset],
                number_of_arguments: bytes[offset + 1],
                application_id: read_u32_at(bytes, offset + 2),
                context_id: read_u32_at(bytes, offset + 6),
            },
        )
    } else {
        None
    };
    DltHeader {
        big_endian: 0 != header_type & BIG_ENDIAN_FLAG,
        version: (header_type >> 5) & MAX_VERSION,
        message_counter: bytes[1],
        length,
        ecu_id,
        session_id,
        timestamp,
        extended_header,
    }
}

fn push_u16(writer: &mut Vec<u8>, v: u16)
    ensures
        final(writer)@ == old(writer)@ + be_u16_bytes(v),
{
    let b = write_be_u16(v);
    writer.push(b[0]);
    writer.push(b[1]);
}

fn push_u32(writer: &mut Vec<u8>, v: u32)
    ensures
        final(writer)@ == old(writer)@ + be_u32_bytes(v),
{
    let b = write_be_u32(v);
    writer.push(b[0]);
    writer.push(b[1]);
    writer.push(b[2]);
    writer.push(b[3]);
}

fn push_optional_u32(writer: &mut Vec<u8>, v: Option<u32>)
    ensures
        final(writer)@ == old(writer)@ + optional_u32_bytes(v),
{
    if let Some(x) = v {
        push_u32(writer, x);
    } else {
        assert(old(writer)@ + optional_u32_bytes(v) =~= old(writer)@);
    }
}

fn push_extended_header(writer: &mut Vec<u8>, ext: &Option<ExtendedDltHeader>)
    ensures
        final(writer)@ == old(writer)@ + extended_header_bytes(*ext),
{
    let ghost start = writer@;
    match ext {
        Some(e) => {
            writer.push(e.message_info);
            writer.push(e.number_of_arguments);
            push_u32(writer, e.application_id);
            push_u32(writer, e.context_id);
            assert(writer@ =~= start + extended_header_bytes(*ext));
        },
        None => {
            assert(writer@ =~= start + extended_header_bytes(*ext));
        },
    }
}

impl DltHeader {
    /// The header type byte: the five flags and the version.
    fn header_type(&self) -> (r: u8)
        requires
            self.version <= MAX_VERSION,
        ensures
            r == header_type_of(*self),
    {
        let mut header_type: u8 = 0;
        if self.extended_header.is_some() {
            proof {
                lemma_or_above(header_type, EXTENDED_HEADER_FLAG);
            }
            header_type |= EXTENDED_HEADER_FLAG;
        }
        if self.big_endian {
            proof {
                lemma_or_above(header_type, BIG_ENDIAN_FLAG);
            }
            header_type |= BIG_ENDIAN_FLAG;
        }
        if self.ecu_id.is_some() {
            proof {
                lemma_or_above(header_type, ECU_ID_FLAG);
            }
            header_type |= ECU_ID_FLAG;
        }
        if self.session_id.is_some() {
            proof {
                lemma_or_above(header_type, SESSION_ID_FLAG);
            }
            header_type |= SESSION_ID_FLAG;
        }
        if self.timestamp.is_some() {
            proof {
                lemma_or_above(header_type, TIMESTAMP_FLAG);
            }
            header_type |= TIMESTAMP_FLAG;
        }
        proof {
            lemma_or_version(header_type, self.version);
        }
        header_type |= (self.version << 5) & 0b1110_0000;
        header_type
    }

    /// Reads a header from the front of `reader` and advances it past the
    /// header. Where `reader` ends before the header does, the result is an
    /// I/O error of an exhausted source and `reader` is left as it was.
    pub fn read(reader: &mut &[u8]) -> (r: Result<DltHeader, ReadError>)
        ensures
            match parse_header(old(reader)@) {
                Some(h) => {
                    &&& r == Ok::<DltHeader, ReadError>(h)
                    &&& final(reader)@ == old(reader)@.skip(header_len_of(h) as int)
                },
                None => {
                    &&& r matches Err(ReadError::IoError(_))
                    &&& final(reader)@ == old(reader)@
                },
            },
    {
        let bytes: &[u8] = *reader;
        if bytes.len() < 1 {
            return Err(ReadError::IoError(unexpected_eof()));
        }
        let size = header_size_from_type(bytes[0]);
        if bytes.len() < size {
            return Err(ReadError::IoError(unexpected_eof()));
        }
        let header = decode_header_from(bytes);
        *reader = slice_subrange(bytes, size, bytes.len());
        Ok(header)
    }

    /// Appends the wire form of the header to `writer`. A version above 7 is
    /// refused before any byte is written.
    pub fn write(&self, writer: &mut Vec<u8>) -> (r: Result<(), WriteError>)
        ensures
            self.version > MAX_VERSION ==> {
                &&& r matches Err(WriteError::VersionTooLarge(v)) && v == self.version
                &&& final(writer)@ == old(writer)@
            },
            self.version <= MAX_VERSION ==> {
                &&& r is Ok
                &&& final(writer)@ == old(writer)@ + encode_header(*self)
            },
    {
        if self.version > MAX_VERSION {
            return Err(WriteError::VersionTooLarge(self.version));
        }
        let ghost start = writer@;
        let header_type = self.header_type();
        writer.push(header_type);
        writer.push(self.message_counter);
        push_u16(writer, self.length);
        push_optional_u32(writer, self.ecu_id);
        push_optional_u32(writer, self.session_id);
        push_optional_u32(writer, self.timestamp);
        push_extended_header(writer, &self.extended_header);
        assert(writer@ =~= start + encode_header(*self));
        Ok(())
    }

    /// Whether the message is in verbose mode: only one with an extended
    /// header can be.
    pub fn verbose(&self) -> (r: bool)
        ensures
            r == is_verbose_header(*self),
    {
        match &self.extended_header {
            None => false,
            Some(ext) => ext.is_verbose(),
        }
    }

    /// The size in bytes of the serialized header.
    pub fn header_len(&self) -> (r: u16)
        ensures
            r == header_len_of(*self),
    {
        4 + match self.ecu_id {
            Some(_) => 4,
            None => 0,
        } + match self.session_id {
            Some(_) => 4,
            None => 0,
        } + match self.timestamp {
            Some(_) => 4,
            None => 0,
        } + match self.extended_header {
            Some(_) => 10,
            None => 0,
        }
    }
}

impl ExtendedDltHeader {
    /// Bit 0 of the message info: the verbose flag.
    pub fn is_verbose(&self) -> (r: bool)
        ensures
            r == (self.message_info % 2 == 1),
    {
        let m = self.message_info;
        assert((m & 1u8 != 0) == (m % 2 == 1)) by (bit_vector);
        0 != m & 0b1
    }

    /// Sets or clears the verbose flag; the other bits of the message info
    /// stay as they were.
    pub fn set_is_verbose(&mut self, is_verbose: bool)
        ensures
            final(self).message_info % 2 == (if is_verbose { 1int } else { 0int }),
            final(self).message_info / 2 == old(self).message_info / 2,
            final(self).number_of_arguments == old(self).number_of_arguments,
            final(self).application_id == old(self).application_id,
            final(self).context_id == old(self).context_id,
    {
        let m = self.message_info;
        if is_verbose {
            assert((m | 1u8) % 2 == 1 && (m | 1u8) / 2 == m / 2) by (bit_vector);
            self.message_info = m | 0b1;
        } else {
            assert((m & 0b1111_1110u8) % 2 == 0 && (m & 0b1111_1110u8) / 2 == m / 2)
                by (bit_vector);
            self.message_info = m & 0b1111_1110;
        }
    }
}

impl Default for DltHeader {
    fn default() -> (r: DltHeader)
        ensures
            r == (DltHeader {
                big_endian: false,
                version: 0,
                message_counter: 0,
                length: 0,
                ecu_id: None,
                session_id: None,
                timestamp: None,
                extended_header: None,
            }),
    {
        DltHeader {
            big_endian: false,
            version: 0,
            message_counter: 0,
            length: 0,
            ecu_id: None,
            session_id: None,
            timestamp: None,
            extended_header: None,
        }
    }
}

impl Default for ExtendedDltHeader {
    fn default() -> (r: ExtendedDltHeader)
        ensures
            r == (ExtendedDltHeader {
                message_info: 0,
                number_of_arguments: 0,
                application_id: 0,
                context_id: 0,
            }),
    {
        ExtendedDltHeader { message_info: 0, number_of_arguments: 0, application_id: 0, context_id: 0 }
    }
}

} // verus!
