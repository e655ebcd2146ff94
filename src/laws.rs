//! Laws that relate the encoder, the decoder, the frame slicer and the
//! iterator, proved over the spec functions their contracts use.
use crate::codec::{be_u16_at, be_u16_bytes, be_u32_at, be_u32_bytes, lemma_be_u16_round_trip, lemma_be_u32_round_trip};
use crate::header::{
    count_if, decode_header, encode_header, extended_header_bytes, extended_header_offset,
    has_big_endian_flag, has_ecu_id_flag, has_extended_flag, has_session_id_flag,
    has_timestamp_flag, header_len_of, header_size_of, header_type_of, optional_u32_bytes,
    parse_header, session_id_offset, timestamp_offset, version_bits, DltHeader, MAX_VERSION,
};
use crate::error::ReadError;
use crate::packet::{frame_check, frame_payload, slice_items, MIN_PAYLOAD_LEN};
use vstd::prelude::*;

verus! {

proof fn lemma_type_bits(e: u8, b: u8, c: u8, s: u8, ts: u8, v: u8)
    requires
        e <= 1,
        b <= 1,
        c <= 1,
        s <= 1,
        ts <= 1,
        v <= 7,
    ensures
        ({
            let t = (e + 2 * b + 4 * c + 8 * s + 16 * ts + 32 * v) as u8;
            &&& t % 2 == e
            &&& (t / 2) % 2 == b
            &&& (t / 4) % 2 == c
            &&& (t / 8) % 2 == s
            &&& (t / 16) % 2 == ts
            &&& t / 32 == v
        }),
{
    assert(e <= 1 && b <= 1 && c <= 1 && s <= 1 && ts <= 1 && v <= 7 ==> {
        let t = (e + 2 * b + 4 * c + 8 * s + 16 * ts + 32 * v) as u8;
        &&& t % 2 == e
        &&& (t / 2) % 2 == b
        &&& (t / 4) % 2 == c
        &&& (t / 8) % 2 == s
        &&& (t / 16) % 2 == ts
        &&& t / 32 == v
    }) by (bit_vector);
}

/// The header type byte of a header with a valid version carries its flags
/// and version.
proof fn lemma_header_type_of(h: DltHeader)
    requires
        h.version <= MAX_VERSION,
    ensures
        has_extended_flag(header_type_of(h)) == h.extended_header is Some,
        has_big_endian_flag(header_type_of(h)) == h.big_endian,
        has_ecu_id_flag(header_type_of(h)) == h.ecu_id is Some,
        has_session_id_flag(header_type_of(h)) == h.session_id is Some,
        has_timestamp_flag(header_type_of(h)) == h.timestamp is Some,
        version_bits(header_type_of(h)) == h.version,
        header_size_of(header_type_of(h)) == header_len_of(h),
{
    let e: u8 = if h.extended_header is Some { 1 } else { 0 };
    let b: u8 = if h.big_endian { 1 } else { 0 };
    let c: u8 = if h.ecu_id is Some { 1 } else { 0 };
    let s: u8 = if h.session_id is Some { 1 } else { 0 };
    let ts: u8 = if h.timestamp is Some { 1 } else { 0 };
    lemma_type_bits(e, b, c, s, ts, h.version);
    assert(header_type_of(h) == (e + 2 * b + 4 * c + 8 * s + 16 * ts + 32 * h.version) as u8);
}

proof fn lemma_u32_at(b: Seq<u8>, i: int, x: u32)
    requires
        0 <= i,
        i + 4 <= b.len(),
        b.subrange(i, i + 4) == be_u32_bytes(x),
    ensures
        be_u32_at(b, i) == x,
{
    lemma_be_u32_round_trip(x);
    assert(b[i] == b.subrange(i, i + 4)[0]);
    assert(b[i + 1] == b.subrange(i, i + 4)[1]);
    assert(b[i + 2] == b.subrange(i, i + 4)[2]);
    assert(b[i + 3] == b.subrange(i, i + 4)[3]);
}

proof fn lemma_optional_at(b: Seq<u8>, i: int, v: Option<u32>)
    requires
        0 <= i,
        i + optional_u32_bytes(v).len() <= b.len(),
        b.subrange(i, i + optional_u32_bytes(v).len()) == optional_u32_bytes(v),
    ensures
        v is Some ==> be_u32_at(b, i) == v->0,
{
    if let Some(x) = v {
        lemma_u32_at(b, i, x);
    }
}

/// Where each part of an encoded header stands in the encoding followed by
/// `rest`.
proof fn lemma_encoded_layout(h: DltHeader, rest: Seq<u8>)
    requires
        h.version <= MAX_VERSION,
    ensures
        ({
            let b = encode_header(h) + rest;
            let t = header_type_of(h);
            let o2 = session_id_offset(t) as int;
            let o3 = timestamp_offset(t) as int;
            let o4 = extended_header_offset(t) as int;
            &&& encode_header(h).len() == header_len_of(h)
            &&& header_size_of(t) == header_len_of(h)
            &&& b[0] == t
            &&& b[1] == h.message_counter
            &&& b.subrange(2, 4) == be_u16_bytes(h.length)
            &&& o2 == 4 + optional_u32_bytes(h.ecu_id).len()
            &&& o3 == o2 + optional_u32_bytes(h.session_id).len()
            &&& o4 == o3 + optional_u32_bytes(h.timestamp).len()
            &&& o4 + extended_header_bytes(h.extended_header).len() == header_len_of(h)
            &&& b.subrange(4, o2) == optional_u32_bytes(h.ecu_id)
            &&& b.subrange(o2, o3) == optional_u32_bytes(h.session_id)
            &&& b.subrange(o3, o4) == optional_u32_bytes(h.timestamp)
            &&& b.subrange(o4, o4 + extended_header_bytes(h.extended_header).len())
                == extended_header_bytes(h.extended_header)
        }),
{
    let t = header_type_of(h);
    lemma_header_type_of(h);
    let p0 = seq![t, h.message_counter] + be_u16_bytes(h.length);
    let p1 = optional_u32_bytes(h.ecu_id);
    let p2 = optional_u32_bytes(h.session_id);
    let p3 = optional_u32_bytes(h.timestamp);
    let p4 = extended_header_bytes(h.extended_header);
    let enc = encode_header(h);
    assert(enc == p0 + p1 + p2 + p3 + p4);
    let b = enc + rest;
    let o2: int = 4 + p1.len() as int;
    let o3: int = o2 + p2.len() as int;
    let o4: int = o3 + p3.len() as int;
    assert(b.subrange(0, 4) =~= p0);
    assert(b.subrange(4, o2) =~= p1);
    assert(b.subrange(o2, o3) =~= p2);
    assert(b.subrange(o3, o4) =~= p3);
    assert(b.subrange(o4, o4 + p4.len()) =~= p4);
    assert(b[0] == p0[0]);
    assert(b[1] == p0[1]);
    assert(b.subrange(2, 4) =~= be_u16_bytes(h.length));
}

/// The bytes of a header with a valid version, followed by any bytes, parse
/// back to that header, which spans exactly its encoding.
pub proof fn lemma_parse_encoded_prefix(h: DltHeader, rest: Seq<u8>)
    requires
        h.version <= MAX_VERSION,
    ensures
        encode_header(h).len() == header_len_of(h),
        parse_header(encode_header(h) + rest) == Some(h),
{
    let t = header_type_of(h);
    let b = encode_header(h) + rest;
    lemma_header_type_of(h);
    lemma_encoded_layout(h, rest);
    let o2 = session_id_offset(t) as int;
    let o3 = timestamp_offset(t) as int;
    let o4 = extended_header_offset(t) as int;
    assert(be_u16_at(b, 2) == h.length) by {
        lemma_be_u16_round_trip(h.length);
        assert(b[2] == b.subrange(2, 4)[0]);
        assert(b[3] == b.subrange(2, 4)[1]);
    }
    lemma_optional_at(b, 4, h.ecu_id);
    lemma_optional_at(b, o2, h.session_id);
    lemma_optional_at(b, o3, h.timestamp);
    if let Some(x) = h.extended_header {
        let q = b.subrange(o4, o4 + 10);
        assert(q == extended_header_bytes(h.extended_header));
        assert(b[o4] == q[0]);
        assert(b[o4 + 1] == q[1]);
        assert(b.subrange(o4 + 2, o4 + 6) =~= q.subrange(2, 6));
        assert(q.subrange(2, 6) =~= be_u32_bytes(x.application_id));
        assert(b.subrange(o4 + 6, o4 + 10) =~= q.subrange(6, 10));
        assert(q.subrange(6, 10) =~= be_u32_bytes(x.context_id));
        lemma_u32_at(b, o4 + 2, x.application_id);
        lemma_u32_at(b, o4 + 6, x.context_id);
    }
    assert(decode_header(b) == h);
}

/// Writing a header with a valid version and reading the bytes back gives
/// the same header.
pub proof fn lemma_write_read_round_trip(h: DltHeader)
    requires
        h.version <= MAX_VERSION,
    ensures
        parse_header(encode_header(h)) == Some(h),
{
    lemma_parse_encoded_prefix(h, Seq::empty());
    assert(encode_header(h) + Seq::empty() =~= encode_header(h));
}

/// Reading the bytes of a header with its last byte cut off fails: the
/// source runs out before the header is complete.
pub proof fn lemma_truncated_header_fails(h: DltHeader)
    requires
        h.version <= MAX_VERSION,
    ensures
        parse_header(encode_header(h).drop_last()) is None,
{
    lemma_parse_encoded_prefix(h, Seq::empty());
    assert(encode_header(h) + Seq::empty() =~= encode_header(h));
    let b = encode_header(h).drop_last();
    if b.len() >= 1 {
        assert(b[0] == encode_header(h)[0]);
        lemma_header_type_of(h);
    }
}

// ---------------------------------------------------------------------------
// Messages in a buffer

/// A header with a valid version whose length field counts itself and the
/// payload, and a payload of at least the minimal size.
pub open spec fn is_valid_message(h: DltHeader, payload: Seq<u8>) -> bool {
    &&& h.version <= MAX_VERSION
    &&& h.length == header_len_of(h) + payload.len()
    &&& payload.len() >= MIN_PAYLOAD_LEN
}

/// The bytes of a message: its header, then its payload.
pub open spec fn message_bytes(h: DltHeader, payload: Seq<u8>) -> Seq<u8> {
    encode_header(h) + payload
}

/// The bytes of the messages `ms`, one after the other.
pub open spec fn messages_bytes(ms: Seq<(DltHeader, Seq<u8>)>) -> Seq<u8>
    decreases ms.len(),
{
    if ms.len() == 0 {
        Seq::empty()
    } else {
        message_bytes(ms[0].0, ms[0].1) + messages_bytes(ms.drop_first())
    }
}

/// Every message of `ms` is valid.
pub open spec fn all_valid_messages(ms: Seq<(DltHeader, Seq<u8>)>) -> bool {
    forall|i: int| 0 <= i < ms.len() ==> is_valid_message(#[trigger] ms[i].0, ms[i].1)
}

/// The items an iterator yields for the messages `ms`: each one framed.
pub open spec fn framed_items(ms: Seq<(DltHeader, Seq<u8>)>) -> Seq<Result<Seq<u8>, ReadError>> {
    ms.map_values(|m: (DltHeader, Seq<u8>)| Ok(message_bytes(m.0, m.1)))
}

/// A valid message at the front of a buffer frames to exactly its own bytes,
/// whatever follows it.
proof fn lemma_frame_of_message(h: DltHeader, payload: Seq<u8>, rest: Seq<u8>)
    requires
        is_valid_message(h, payload),
    ensures
        frame_check(message_bytes(h, payload) + rest) == Ok::<nat, ReadError>(
            message_bytes(h, payload).len(),
        ),
        message_bytes(h, payload).len() == h.length,
        (message_bytes(h, payload) + rest).take(message_bytes(h, payload).len() as int)
            == message_bytes(h, payload),
        (message_bytes(h, payload) + rest).skip(message_bytes(h, payload).len() as int) == rest,
{
    let m = message_bytes(h, payload);
    let b = m + rest;
    assert(b =~= encode_header(h) + (payload + rest));
    lemma_parse_encoded_prefix(h, payload + rest);
    lemma_encoded_layout(h, payload + rest);
    assert(be_u16_at(b, 2) == h.length);
    assert(b.take(m.len() as int) =~= m);
    assert(b.skip(m.len() as int) =~= rest);
}

/// A valid message with its last byte cut off fails to frame: the buffer
/// is one byte shorter than its length field.
proof fn lemma_truncated_message(h: DltHeader, payload: Seq<u8>)
    requires
        is_valid_message(h, payload),
    ensures
        frame_check(message_bytes(h, payload).drop_last()) == Err::<nat, ReadError>(
            ReadError::UnexpectedEndOfSlice {
                minimum_size: h.length as usize,
                actual_size: (h.length - 1) as usize,
            },
        ),
        slice_items(message_bytes(h, payload).drop_last()) == seq![
            Err::<Seq<u8>, ReadError>(
                ReadError::UnexpectedEndOfSlice {
                    minimum_size: h.length as usize,
                    actual_size: (h.length - 1) as usize,
                },
            ),
        ],
{
    let m = message_bytes(h, payload);
    lemma_frame_of_message(h, payload, Seq::empty());
    assert(m + Seq::empty() =~= m);
    let t = m.drop_last();
    assert(t[2] == m[2] && t[3] == m[3]);
    assert(be_u16_at(t, 2) == be_u16_at(m, 2));
}

/// Slicing a buffer that starts with the valid messages `ms` yields each of
/// them in order, then what the rest of the buffer yields.
proof fn lemma_items_of_messages(ms: Seq<(DltHeader, Seq<u8>)>, rest: Seq<u8>)
    requires
        all_valid_messages(ms),
    ensures
        slice_items(messages_bytes(ms) + rest) == framed_items(ms) + slice_items(rest),
    decreases ms.len(),
{
    if ms.len() == 0 {
        assert(messages_bytes(ms) + rest =~= rest);
        assert(framed_items(ms) + slice_items(rest) =~= slice_items(rest));
    } else {
        let (h, payload) = ms[0];
        assert(is_valid_message(ms[0].0, ms[0].1));
        let tail = ms.drop_first();
        assert forall|i: int| 0 <= i < tail.len() implies is_valid_message(
            #[trigger] tail[i].0,
            tail[i].1,
        ) by {
            assert(tail[i] == ms[i + 1]);
            assert(is_valid_message(ms[i + 1].0, ms[i + 1].1));
        }
        lemma_items_of_messages(tail, rest);
        let m = message_bytes(h, payload);
        let after = messages_bytes(tail) + rest;
        assert(messages_bytes(ms) + rest =~= m + after);
        lemma_frame_of_message(h, payload, after);
        assert(framed_items(ms) =~= seq![Ok::<Seq<u8>, ReadError>(m)] + framed_items(tail));
        assert(slice_items(m + after) == seq![Ok::<Seq<u8>, ReadError>(m)] + slice_items(after));
        assert(framed_items(ms) + slice_items(rest) =~= seq![Ok::<Seq<u8>, ReadError>(m)] + (
        framed_items(tail) + slice_items(rest)));
    }
}

proof fn lemma_messages_bytes_last(ms: Seq<(DltHeader, Seq<u8>)>)
    requires
        ms.len() >= 1,
    ensures
        messages_bytes(ms) == messages_bytes(ms.drop_last()) + message_bytes(
            ms.last().0,
            ms.last().1,
        ),
    decreases ms.len(),
{
    if ms.len() == 1 {
        assert(ms.drop_last() =~= Seq::<(DltHeader, Seq<u8>)>::empty());
        assert(messages_bytes(ms.drop_first()) == Seq::<u8>::empty()) by {
            assert(ms.drop_first().len() == 0);
        }
        assert(messages_bytes(ms) =~= messages_bytes(ms.drop_last()) + message_bytes(
            ms.last().0,
            ms.last().1,
        ));
    } else {
        lemma_messages_bytes_last(ms.drop_first());
        assert(ms.drop_first().drop_last() =~= ms.drop_last().drop_first());
        assert(ms.drop_first().last() == ms.last());
        assert(ms.drop_last()[0] == ms[0]);
        assert(messages_bytes(ms) =~= messages_bytes(ms.drop_last()) + message_bytes(
            ms.last().0,
            ms.last().1,
        ));
    }
}

/// A message whose length field counts the header and payload, and whose
/// payload has at least the minimal size, frames to exactly its bytes: its
/// header decodes to the header written and its payload is the payload
/// written. Cutting off the last byte makes framing fail for want of bytes.
pub proof fn lemma_slice_extraction(h: DltHeader, payload: Seq<u8>)
    requires
        h.version <= MAX_VERSION,
        h.length == header_len_of(h) + payload.len(),
        payload.len() >= MIN_PAYLOAD_LEN,
    ensures
        ({
            let b = encode_header(h) + payload;
            &&& frame_check(b) == Ok::<nat, ReadError>(b.len())
            &&& decode_header(b) == h
            &&& frame_payload(b) == payload
            &&& frame_check(b.drop_last()) matches Err(ReadError::UnexpectedEndOfSlice { .. })
        }),
{
    let b = encode_header(h) + payload;
    lemma_frame_of_message(h, payload, Seq::empty());
    assert(b + Seq::empty() =~= b);
    lemma_parse_encoded_prefix(h, payload);
    lemma_encoded_layout(h, payload);
    assert(frame_payload(b) =~= payload);
    lemma_truncated_message(h, payload);
}

/// A message whose length field leaves room for only 3 payload bytes, one
/// less than the minimal payload, fails to frame with the length below the
/// minimum.
pub proof fn lemma_minimum_length_enforced(h: DltHeader, payload: Seq<u8>)
    requires
        h.version <= MAX_VERSION,
        h.length == header_len_of(h) + 3,
        payload.len() == 3,
    ensures
        frame_check(encode_header(h) + payload) == Err::<nat, ReadError>(
            ReadError::LengthSmallerThenMinimum {
                required_length: (header_len_of(h) + 4) as usize,
                length: (header_len_of(h) + 3) as usize,
            },
        ),
{
    let b = encode_header(h) + payload;
    lemma_parse_encoded_prefix(h, payload);
    lemma_encoded_layout(h, payload);
    assert(be_u16_at(b, 2) == h.length);
}

/// Iterating over valid messages laid one after the other yields exactly
/// those messages in order. Cutting off the last byte of the buffer yields
/// all but the last message, then one error for want of bytes, and the
/// sequence ends; cutting the buffer inside the first message yields that
/// error alone.
pub proof fn lemma_iterator_fidelity(ms: Seq<(DltHeader, Seq<u8>)>)
    requires
        ms.len() >= 1,
        all_valid_messages(ms),
    ensures
        slice_items(messages_bytes(ms)) == framed_items(ms),
        slice_items(messages_bytes(ms).drop_last()) == framed_items(ms.drop_last()) + seq![
            Err::<Seq<u8>, ReadError>(
                ReadError::UnexpectedEndOfSlice {
                    minimum_size: ms.last().0.length as usize,
                    actual_size: (ms.last().0.length - 1) as usize,
                },
            ),
        ],
        slice_items(messages_bytes(ms).take(ms[0].0.length - 1)) == seq![
            Err::<Seq<u8>, ReadError>(
                ReadError::UnexpectedEndOfSlice {
                    minimum_size: ms[0].0.length as usize,
                    actual_size: (ms[0].0.length - 1) as usize,
                },
            ),
        ],
{
    let empty = Seq::<u8>::empty();
    lemma_items_of_messages(ms, empty);
    assert(messages_bytes(ms) + empty =~= messages_bytes(ms));
    assert(framed_items(ms) + slice_items(empty) =~= framed_items(ms));
    // the last message cut short
    let init = ms.drop_last();
    let (hl, pl) = ms.last();
    assert(is_valid_message(ms[ms.len() - 1].0, ms[ms.len() - 1].1));
    assert forall|i: int| 0 <= i < init.len() implies is_valid_message(
        #[trigger] init[i].0,
        init[i].1,
    ) by {
        assert(init[i] == ms[i]);
        assert(is_valid_message(ms[i].0, ms[i].1));
    }
    lemma_messages_bytes_last(ms);
    let last = message_bytes(hl, pl);
    lemma_frame_of_message(hl, pl, empty);
    assert(messages_bytes(ms).drop_last() =~= messages_bytes(init) + last.drop_last());
    lemma_items_of_messages(init, last.drop_last());
    lemma_truncated_message(hl, pl);
    // the first message cut short
    let (h0, p0) = ms[0];
    assert(is_valid_message(ms[0].0, ms[0].1));
    let first = message_bytes(h0, p0);
    lemma_frame_of_message(h0, p0, messages_bytes(ms.drop_first()));
    assert(messages_bytes(ms).take(h0.length - 1) =~= first.drop_last());
    lemma_truncated_message(h0, p0);
}

} // verus!
