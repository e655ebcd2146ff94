use dlt_parse::{DltHeader, DltPacketSlice, ExtendedDltHeader, ReadError, SliceIterator, WriteError};
use proptest::arbitrary::any;
use proptest::collection;
use proptest::option;
use proptest::strategy::Strategy;
use proptest::test_runner::{Config, TestRunner};

fn runner() -> TestRunner {
    TestRunner::new(Config { cases: 64, failure_persistence: None, ..Config::default() })
}

fn dlt_header_any() -> impl Strategy<Value = DltHeader> {
    (
        any::<bool>(),
        0u8..=7,
        any::<u8>(),
        any::<u16>(),
        option::of(any::<u32>()),
        option::of(any::<u32>()),
        option::of(any::<u32>()),
        option::of((any::<u8>(), any::<u8>(), any::<u32>(), any::<u32>())),
    )
        .prop_map(
            |(big_endian, version, message_counter, length, ecu_id, session_id, timestamp, ext)| {
                DltHeader {
                    big_endian,
                    version,
                    message_counter,
                    length,
                    ecu_id,
                    session_id,
                    timestamp,
                    extended_header: ext.map(|(m, n, a, c)| ExtendedDltHeader {
                        message_info: m,
                        number_of_arguments: n,
                        application_id: a,
                        context_id: c,
                    }),
                }
            },
        )
}

fn dlt_header_with_payload_any() -> impl Strategy<Value = (DltHeader, Vec<u8>)> {
    (dlt_header_any(), collection::vec(any::<u8>(), 4..1234)).prop_map(|(mut header, payload)| {
        header.length = header.header_len() + (payload.len() as u16);
        (header, payload)
    })
}

fn serialize(header: &DltHeader, payload: &[u8]) -> Vec<u8> {
    let mut buffer = Vec::new();
    header.write(&mut buffer).unwrap();
    buffer.extend_from_slice(payload);
    buffer
}

#[test]
fn packet_from_slice() {
    runner()
        .run(&dlt_header_with_payload_any(), |packet| {
            let buffer = serialize(&packet.0, &packet.1);
            //read the slice
            let slice = DltPacketSlice::from_slice(&buffer[..]).unwrap();
            //check the results are matching the input
            assert_eq!(slice.header(), packet.0);
            assert_eq!(slice.payload(), &packet.1[..]);
            assert_eq!(slice.slice(), &buffer[..]);
            //check that a too small slice produces an error
            let len = buffer.len();
            assert!(matches!(
                DltPacketSlice::from_slice(&buffer[..len - 1]),
                Err(ReadError::UnexpectedEndOfSlice { minimum_size: _, actual_size: _ })
            ));
            Ok(())
        })
        .unwrap();
}

#[test]
fn iterator() {
    runner()
        .run(&collection::vec(dlt_header_with_payload_any(), 1..5), |packets| {
            let mut buffer = Vec::new();
            let mut offsets: Vec<(usize, usize)> = Vec::with_capacity(packets.len());
            for packet in &packets {
                let start = buffer.len();
                packet.0.write(&mut buffer).unwrap();
                buffer.extend_from_slice(&packet.1);
                offsets.push((start, buffer.len()));
            }

            //determine the expected output
            let mut expected: Vec<DltPacketSlice> = Vec::with_capacity(packets.len());
            for offset in &offsets {
                let slice = &buffer[offset.0..offset.1];
                let e = DltPacketSlice::from_slice(slice).unwrap();
                assert_eq!(e.slice(), slice);
                expected.push(e);
            }

            //iterate over packets
            let mut actual: Vec<DltPacketSlice> = Vec::new();
            let mut it = SliceIterator::new(&buffer);
            while let Some(item) = it.next() {
                actual.push(item.unwrap());
            }
            assert_eq!(expected, actual);

            //first entry cut short
            {
                let o = offsets.first().unwrap();
                let mut it = SliceIterator::new(&buffer[..(o.1 - 1)]);
                assert!(matches!(
                    it.next(),
                    Some(Err(ReadError::UnexpectedEndOfSlice { minimum_size: _, actual_size: _ }))
                ));
                assert!(it.next().is_none());
            }
            //last entry cut short
            {
                let o = offsets.last().unwrap();
                let mut it = SliceIterator::new(&buffer[..(o.1 - 1)]);
                for _ in 0..offsets.len() - 1 {
                    assert!(matches!(it.next(), Some(Ok(_))));
                }
                assert!(matches!(
                    it.next(),
                    Some(Err(ReadError::UnexpectedEndOfSlice { minimum_size: _, actual_size: _ }))
                ));
                assert!(it.next().is_none());
            }
            Ok(())
        })
        .unwrap();
}

#[test]
fn packet_from_slice_header_len_eof_errors() {
    //too small for header
    {
        let buffer = [1, 2, 3];
        assert!(matches!(
            DltPacketSlice::from_slice(&buffer[..]),
            Err(ReadError::UnexpectedEndOfSlice { minimum_size: 4, actual_size: 3 })
        ));
    }
    //too small for the length
    {
        let mut header: DltHeader = Default::default();
        header.length = 5;
        let mut buffer = Vec::new();
        header.write(&mut buffer).unwrap();
        assert!(matches!(
            DltPacketSlice::from_slice(&buffer[..]),
            Err(ReadError::UnexpectedEndOfSlice { minimum_size: 5, actual_size: 4 })
        ));
    }
}

#[test]
fn packet_from_slice_header_variable_len_eof_errors() {
    runner()
        .run(&dlt_header_any(), |input| {
            let mut header = input.clone();
            header.length = header.header_len() + 3; //minimum payload size is 4
            let buffer = serialize(&header, &[1, 2, 3]);
            let required = usize::from(header.header_len()) + 4;
            let length = usize::from(header.header_len()) + 3;
            assert!(matches!(
                DltPacketSlice::from_slice(&buffer[..]),
                Err(ReadError::LengthSmallerThenMinimum { required_length, length: l })
                    if required_length == required && l == length
            ));
            Ok(())
        })
        .unwrap();
}

#[test]
fn from_slice_exact_values() {
    // standard header with an ECU id, length 12: 8 header bytes and 4 payload
    // bytes, then two bytes of the next message
    let buffer = [0b0000_0100u8, 1, 0, 12, 0xe0, 0xe1, 0xe2, 0xe3, 0xaa, 0xbb, 0xcc, 0xdd, 0x77, 0x88];
    let slice = DltPacketSlice::from_slice(&buffer).unwrap();
    assert_eq!(slice.slice(), &buffer[..12]);
    assert_eq!(slice.payload(), &[0xaa, 0xbb, 0xcc, 0xdd][..]);
    assert_eq!(slice.header().ecu_id, Some(0xe0e1_e2e3));
    assert_eq!(slice.header().length, 12);
    assert_eq!(slice.header().version, 0);
}

#[test]
fn from_slice_length_below_minimum_exact() {
    // extended header flag: header of 14 bytes, length 17 leaves 3 payload bytes
    let mut buffer = vec![0b0000_0001u8, 0, 0, 17];
    buffer.extend_from_slice(&[0u8; 13]);
    assert!(matches!(
        DltPacketSlice::from_slice(&buffer),
        Err(ReadError::LengthSmallerThenMinimum { required_length: 18, length: 17 })
    ));
}

#[test]
fn from_slice_length_field_zero() {
    let buffer = [0u8, 0, 0, 0, 1, 2, 3, 4];
    assert!(matches!(
        DltPacketSlice::from_slice(&buffer),
        Err(ReadError::LengthSmallerThenMinimum { required_length: 8, length: 0 })
    ));
}

#[test]
fn iterator_empty_buffer() {
    let mut it = SliceIterator::new(&[]);
    assert!(it.next().is_none());
    assert!(it.next().is_none());
}

#[test]
fn iterator_stops_after_error() {
    // one complete message, then a message whose length field exceeds the buffer
    let mut buffer = vec![0u8, 0, 0, 8, 1, 2, 3, 4];
    buffer.extend_from_slice(&[0u8, 0, 0, 9, 1, 2, 3, 4]);
    let mut it = SliceIterator::new(&buffer);
    assert_eq!(it.next().unwrap().unwrap().slice(), &buffer[..8]);
    assert!(matches!(
        it.next(),
        Some(Err(ReadError::UnexpectedEndOfSlice { minimum_size: 9, actual_size: 8 }))
    ));
    assert!(it.next().is_none());
}

#[test]
fn test_debug() {
    {
        for value in [
            ReadError::UnexpectedEndOfSlice { minimum_size: 1, actual_size: 2 },
            ReadError::LengthSmallerThenMinimum { required_length: 3, length: 4 },
            ReadError::IoError(std::io::Error::new(std::io::ErrorKind::Other, "oh no!")),
        ]
        .iter()
        {
            println!("{:?}", value);
        }
    }
    {
        for value in [
            WriteError::VersionTooLarge(123),
            WriteError::IoError(std::io::Error::new(std::io::ErrorKind::Other, "oh no!")),
        ]
        .iter()
        {
            println!("{:?}", value);
        }
    }
    {
        let header: DltHeader = Default::default();
        let mut buffer = Vec::new();
        header.write(&mut buffer).unwrap();
        let slice = DltPacketSlice::from_slice(&buffer);
        println!("{:?}", slice);
    }
}

#[test]
fn io_errors_convert() {
    let e: ReadError = std::io::Error::new(std::io::ErrorKind::Other, "x").into();
    assert!(matches!(e, ReadError::IoError(_)));
    let e: WriteError = std::io::Error::new(std::io::ErrorKind::Other, "x").into();
    assert!(matches!(e, WriteError::IoError(_)));
}
