use dlt_parse::header::header_size_from_type;
use dlt_parse::{DltHeader, ExtendedDltHeader, ReadError, WriteError};
use proptest::arbitrary::any;
use proptest::collection;
use proptest::option;
use proptest::strategy::Strategy;
use proptest::test_runner::{Config, TestRunner};

fn runner() -> TestRunner {
    TestRunner::new(Config { cases: 128, failure_persistence: None, ..Config::default() })
}

fn extended_header_any() -> impl Strategy<Value = ExtendedDltHeader> {
    (any::<u8>(), any::<u8>(), any::<u32>(), any::<u32>()).prop_map(
        |(message_info, number_of_arguments, application_id, context_id)| ExtendedDltHeader {
            message_info,
            number_of_arguments,
            application_id,
            context_id,
        },
    )
}

fn dlt_header_any() -> impl Strategy<Value = DltHeader> {
    (
        any::<bool>(),
        0u8..=7,
        any::<u8>(),
        any::<u16>(),
        option::of(any::<u32>()),
        option::of(any::<u32>()),
        option::of(any::<u32>()),
        option::of(extended_header_any()),
    )
        .prop_map(
            |(big_endian, version, message_counter, length, ecu_id, session_id, timestamp, extended_header)| {
                DltHeader {
                    big_endian,
                    version,
                    message_counter,
                    length,
                    ecu_id,
                    session_id,
                    timestamp,
                    extended_header,
                }
            },
        )
}

fn sample_header() -> DltHeader {
    DltHeader {
        big_endian: true,
        version: 1,
        message_counter: 0x42,
        length: 0x1234,
        ecu_id: Some(0x0102_0304),
        session_id: None,
        timestamp: Some(0xa0b0_c0d0),
        extended_header: Some(ExtendedDltHeader {
            message_info: 0x41,
            number_of_arguments: 2,
            application_id: 0x4150_5031,
            context_id: 0x4354_5831,
        }),
    }
}

#[test]
fn write_read() {
    runner()
        .run(&dlt_header_any(), |dlt_header| {
            let mut buffer = Vec::new();
            dlt_header.write(&mut buffer).unwrap();
            let mut reader = &buffer[..];
            let result = DltHeader::read(&mut reader).unwrap();
            assert_eq!(dlt_header, result);
            assert!(reader.is_empty());
            Ok(())
        })
        .unwrap();
}

#[test]
fn read_length_error() {
    runner()
        .run(&dlt_header_any(), |dlt_header| {
            let mut buffer = Vec::new();
            dlt_header.write(&mut buffer).unwrap();
            let reduced_len = buffer.len() - 1;
            let mut reader = &buffer[..reduced_len];
            assert!(matches!(DltHeader::read(&mut reader), Err(ReadError::IoError(_))));
            assert_eq!(reader.len(), reduced_len);
            Ok(())
        })
        .unwrap();
}

#[test]
fn write_version_error() {
    runner()
        .run(&(dlt_header_any(), 8u8..u8::MAX), |(dlt_header, version)| {
            let mut input = dlt_header.clone();
            input.version = version;
            let mut buffer = Vec::new();
            assert!(matches!(input.write(&mut buffer), Err(WriteError::VersionTooLarge(v)) if v == version));
            assert!(buffer.is_empty());
            Ok(())
        })
        .unwrap();
}

#[test]
fn write_appends_after_existing_bytes() {
    runner()
        .run(&(dlt_header_any(), collection::vec(any::<u8>(), 0..8)), |(dlt_header, prefix)| {
            let mut buffer = prefix.clone();
            dlt_header.write(&mut buffer).unwrap();
            assert_eq!(&buffer[..prefix.len()], &prefix[..]);
            assert_eq!(buffer.len() - prefix.len(), usize::from(dlt_header.header_len()));
            Ok(())
        })
        .unwrap();
}

#[test]
fn write_exact_bytes() {
    let mut buffer = Vec::new();
    sample_header().write(&mut buffer).unwrap();
    assert_eq!(
        buffer,
        vec![
            // extended, big endian, ecu id, timestamp, version 1
            0b0011_0111,
            0x42,
            0x12,
            0x34,
            0x01,
            0x02,
            0x03,
            0x04,
            0xa0,
            0xb0,
            0xc0,
            0xd0,
            0x41,
            2,
            0x41,
            0x50,
            0x50,
            0x31,
            0x43,
            0x54,
            0x58,
            0x31,
        ]
    );
}

#[test]
fn write_version_seven_bits() {
    let mut header: DltHeader = Default::default();
    header.version = 7;
    let mut buffer = Vec::new();
    header.write(&mut buffer).unwrap();
    assert_eq!(buffer, vec![0b1110_0000, 0, 0, 0]);
}

#[test]
fn write_version_eight_refused() {
    let mut header: DltHeader = Default::default();
    header.version = 8;
    let mut buffer = vec![9u8];
    assert!(matches!(header.write(&mut buffer), Err(WriteError::VersionTooLarge(8))));
    assert_eq!(buffer, vec![9u8]);
}

#[test]
fn read_exact_bytes_and_advance() {
    let bytes = [0b0010_1010u8, 7, 0x00, 0x10, 0xde, 0xad, 0xbe, 0xef, 0xff, 0xee];
    let mut reader = &bytes[..];
    let header = DltHeader::read(&mut reader).unwrap();
    assert_eq!(
        header,
        DltHeader {
            big_endian: true,
            version: 1,
            message_counter: 7,
            length: 0x10,
            ecu_id: None,
            session_id: Some(0xdead_beef),
            timestamp: None,
            extended_header: None,
        }
    );
    assert_eq!(reader, &[0xffu8, 0xee][..]);
}

#[test]
fn read_empty_source() {
    let mut reader: &[u8] = &[];
    assert!(matches!(DltHeader::read(&mut reader), Err(ReadError::IoError(_))));
}

#[test]
fn header_len_values() {
    let mut header: DltHeader = Default::default();
    assert_eq!(header.header_len(), 4);
    header.ecu_id = Some(1);
    assert_eq!(header.header_len(), 8);
    header.session_id = Some(2);
    header.timestamp = Some(3);
    assert_eq!(header.header_len(), 16);
    header.extended_header = Some(Default::default());
    assert_eq!(header.header_len(), 26);
    assert_eq!(sample_header().header_len(), 22);
}

#[test]
fn header_size_from_type_values() {
    assert_eq!(header_size_from_type(0), 4);
    assert_eq!(header_size_from_type(0b1), 14);
    assert_eq!(header_size_from_type(0b10), 4);
    assert_eq!(header_size_from_type(0b1_1101), 26);
    assert_eq!(header_size_from_type(0b1110_0100), 8);
}

#[test]
fn ext_set_is_verbose() {
    let mut header: ExtendedDltHeader = Default::default();
    let original = header.clone();
    header.set_is_verbose(true);
    assert_eq!(true, header.is_verbose());
    header.set_is_verbose(false);
    assert_eq!(false, header.is_verbose());
    assert_eq!(original, header);
}

#[test]
fn ext_set_is_verbose_keeps_other_bits() {
    let mut header = ExtendedDltHeader {
        message_info: 0b1010_1010,
        number_of_arguments: 3,
        application_id: 4,
        context_id: 5,
    };
    header.set_is_verbose(true);
    assert_eq!(header.message_info, 0b1010_1011);
    header.set_is_verbose(false);
    assert_eq!(header.message_info, 0b1010_1010);
    assert_eq!(header.number_of_arguments, 3);
    assert_eq!(header.application_id, 4);
    assert_eq!(header.context_id, 5);
}

#[test]
fn is_verbose() {
    let mut header: DltHeader = Default::default();
    assert_eq!(false, header.verbose());
    //add an extended header without the verbose flag
    header.extended_header = Some(Default::default());
    assert_eq!(false, header.verbose());
    //set the verbose flag
    header.extended_header.as_mut().unwrap().set_is_verbose(true);
    assert_eq!(true, header.verbose());
}
