use vpt_sdk::ProgramBuilder;
use vpt_sdk::Version;
use vpt_sdk::Vpt;
use vpt_sdk::VptBuilder;
use vpt_sdk::VptDefect;
use vpt_sdk::VPT_MAGIC;

fn build_table(vendor_id: u32, entries: &[(&[u8], &[u8])]) -> Vec<u8> {
    let mut builder = VptBuilder::new(vendor_id);
    for (name, payload) in entries {
        builder.add_program(ProgramBuilder {
            name: name.to_vec(),
            payload: payload.to_vec(),
        });
    }
    builder.build()
}

fn read_u32(bytes: &[u8], offset: usize) -> u32 {
    u32::from_le_bytes([
        bytes[offset],
        bytes[offset + 1],
        bytes[offset + 2],
        bytes[offset + 3],
    ])
}

#[test]
fn version_compatibility_pairs() {
    let v = |major, minor| Version { major, minor };
    assert!(v(0, 1).compatible_with(&v(0, 1)));
    assert!(!v(0, 1).compatible_with(&v(0, 2)));
    assert!(v(1, 2).compatible_with(&v(1, 3)));
    assert!(!v(1, 3).compatible_with(&v(1, 2)));
    assert!(!v(1, 0).compatible_with(&v(2, 0)));
}

#[test]
fn round_trip_two_programs() {
    let entries: &[(&[u8], &[u8])] = &[
        (b"alpha", &[1, 2, 3]),
        (b"b", &[0xde, 0xad, 0xbe, 0xef, 0x00, 0x01, 0x02, 0x03, 0x04]),
    ];
    let bytes = build_table(42, entries);
    let vpt = Vpt::new(&bytes, 42).expect("a just-built table must validate");
    let header = vpt.header();
    assert_eq!(header.magic, VPT_MAGIC);
    assert_eq!(header.version, Version { major: 0, minor: 1 });
    assert_eq!(header.vendor_id, 42);
    assert_eq!(header.size as usize, bytes.len());
    assert_eq!(header.program_count, 2);
    let mut iter = vpt.program_iter();
    let first = iter.next().expect("first program");
    assert_eq!(first.name(), b"alpha");
    assert_eq!(first.payload(), &[1, 2, 3]);
    let second = iter.next().expect("second program");
    assert_eq!(second.name(), b"b");
    assert_eq!(
        second.payload(),
        &[0xde, 0xad, 0xbe, 0xef, 0x00, 0x01, 0x02, 0x03, 0x04]
    );
    assert!(iter.next().is_none());
}

#[test]
fn round_trip_empty_name_and_payload() {
    let entries: &[(&[u8], &[u8])] = &[(b"", b""), (b"n", b"")];
    let bytes = build_table(0, entries);
    let vpt = Vpt::new(&bytes, 0).expect("valid");
    let mut iter = vpt.program_iter();
    let first = iter.next().expect("first");
    assert_eq!(first.name(), b"");
    assert_eq!(first.payload(), b"");
    let second = iter.next().expect("second");
    assert_eq!(second.name(), b"n");
    assert_eq!(second.payload(), b"");
    assert!(iter.next().is_none());
}

#[test]
fn iterator_restarts_from_view() {
    let bytes = build_table(5, &[(b"one", &[9])]);
    let vpt = Vpt::new(&bytes, 5).expect("valid");
    let mut first_pass = vpt.program_iter();
    assert_eq!(first_pass.next().expect("entry").name(), b"one");
    assert!(first_pass.next().is_none());
    let mut second_pass = vpt.program_iter();
    assert_eq!(second_pass.next().expect("entry").name(), b"one");
}

#[test]
fn builder_entry_sizes() {
    let p = ProgramBuilder {
        name: b"abc".to_vec(),
        payload: vec![7, 8],
    };
    assert_eq!(p.base_size(), 13);
    assert_eq!(p.size(), 16);
    assert_eq!(p.padding_bytes(), 3);
    let exact = ProgramBuilder {
        name: vec![0; 4],
        payload: vec![0; 4],
    };
    assert_eq!(exact.base_size(), 16);
    assert_eq!(exact.size(), 16);
    assert_eq!(exact.padding_bytes(), 0);
}

#[test]
fn entry_headers_are_8_byte_aligned() {
    // Odd name and payload lengths force padding before every later entry.
    let entries: &[(&[u8], &[u8])] = &[
        (b"a", &[1]),
        (b"bb", &[2, 3, 4]),
        (b"ccc", &[]),
        (b"dddd", &[5, 6, 7, 8, 9, 10, 11]),
    ];
    let bytes = build_table(1, entries);
    let mut offset = 24usize;
    for (name, payload) in entries {
        assert_eq!(offset % 8, 0, "entry header offset must be 8-byte aligned");
        let name_len = read_u32(&bytes, offset) as usize;
        let payload_len = read_u32(&bytes, offset + 4) as usize;
        assert_eq!(name_len, name.len());
        assert_eq!(payload_len, payload.len());
        assert_eq!(&bytes[offset + 8..offset + 8 + payload_len], *payload);
        assert_eq!(
            &bytes[offset + 8 + payload_len..offset + 8 + payload_len + name_len],
            *name
        );
        let base = 8 + payload_len + name_len;
        let padded = (base + 7) & !7;
        for pad in &bytes[offset + base..offset + padded] {
            assert_eq!(*pad, 0, "padding bytes must be zero");
        }
        offset += padded;
    }
    assert_eq!(offset, bytes.len());
}

#[test]
fn header_size_matches_bytes_written() {
    let with_programs = build_table(3, &[(b"x", &[1, 2]), (b"y", &[])]);
    assert_eq!(read_u32(&with_programs, 16) as usize, with_programs.len());
    let empty = build_table(3, &[]);
    assert_eq!(read_u32(&empty, 16) as usize, empty.len());
}

#[test]
fn empty_table() {
    let bytes = build_table(11, &[]);
    assert_eq!(bytes.len(), 24);
    let vpt = Vpt::new(&bytes, 11).expect("valid");
    let header = vpt.header();
    assert_eq!(header.program_count, 0);
    assert_eq!(header.size, 24);
    let mut iter = vpt.program_iter();
    assert!(iter.next().is_none());
}

#[test]
fn magic_rejection() {
    let mut bytes = build_table(2, &[(b"p", &[1])]);
    bytes[0] = 0x01;
    bytes[1] = 0x02;
    bytes[2] = 0x03;
    bytes[3] = 0x04;
    let err = Vpt::validate(&bytes, 2, true).expect_err("corrupt magic must fail");
    assert_eq!(err, VptDefect::MagicMismatch(0x04030201));
}

#[test]
fn version_rejection() {
    let mut bytes = build_table(2, &[]);
    // Corrupt the minor version field (bytes 8..12) to an incompatible value.
    bytes[8] = 2;
    let err = Vpt::validate(&bytes, 2, true).expect_err("incompatible version must fail");
    assert_eq!(
        err,
        VptDefect::VersionMismatch(Version { major: 0, minor: 2 })
    );
}

#[test]
fn vendor_rejection() {
    let bytes = build_table(7, &[(b"p", &[1])]);
    let err = Vpt::validate(&bytes, 8, true).expect_err("wrong vendor must fail");
    assert_eq!(err, VptDefect::VendorMismatch(7));
}

#[test]
fn truncated_buffer_rejection() {
    let bytes = build_table(7, &[(b"name", &[1, 2, 3, 4, 5])]);
    let err = Vpt::validate(&bytes[..bytes.len() - 1], 7, true)
        .expect_err("a buffer shorter than header.size must fail");
    assert_eq!(err, VptDefect::SizeMismatch);
}

#[test]
fn buffer_shorter_than_header_rejection() {
    let bytes = [0u8; 10];
    let err = Vpt::validate(&bytes, 0, true).expect_err("too short for a header");
    assert_eq!(err, VptDefect::SizeMismatch);
    let err = Vpt::new(&[], 0).expect_err("empty buffer");
    assert_eq!(err, VptDefect::SizeMismatch);
}

#[test]
fn misaligned_buffer_rejection() {
    let bytes = build_table(1, &[]);
    let err = Vpt::validate(&bytes, 1, false).expect_err("misaligned buffer must fail");
    assert_eq!(err, VptDefect::AlignmentMismatch);
}

#[test]
fn iterator_stops_on_truncated_payload() {
    let mut bytes = build_table(6, &[(b"ok", &[1, 2]), (b"cut", &[3, 4])]);
    // Overstate the last entry's declared payload length: entries start at
    // 24, the first occupies 16 bytes, so the second's header is at 40.
    let huge = 0xffffu32.to_le_bytes();
    bytes[44..48].copy_from_slice(&huge);
    let vpt = Vpt::new(&bytes, 6).expect("header is untouched");
    let mut iter = vpt.program_iter();
    let first = iter.next().expect("intact first entry");
    assert_eq!(first.name(), b"ok");
    assert_eq!(first.payload(), &[1, 2]);
    assert!(
        iter.next().is_none(),
        "an entry that would read past the end must not be yielded"
    );
    assert!(iter.next().is_none());
}

#[test]
fn iterator_stops_on_truncated_name() {
    let mut bytes = build_table(6, &[(b"cut", &[3, 4])]);
    // Overstate the only entry's declared name length (header at 24).
    bytes[24..28].copy_from_slice(&0xffffu32.to_le_bytes());
    let vpt = Vpt::new(&bytes, 6).expect("header is untouched");
    let mut iter = vpt.program_iter();
    assert!(iter.next().is_none());
}

#[test]
fn iterator_honors_program_count() {
    // Declare fewer programs than the bytes hold: iteration stops at the count.
    let mut bytes = build_table(6, &[(b"a", &[1]), (b"b", &[2])]);
    bytes[20..24].copy_from_slice(&1u32.to_le_bytes());
    let vpt = Vpt::new(&bytes, 6).expect("header is consistent");
    let mut iter = vpt.program_iter();
    assert_eq!(iter.next().expect("first entry").name(), b"a");
    assert!(iter.next().is_none());
}

#[test]
fn view_truncates_to_declared_size() {
    // Extra bytes beyond header.size are ignored by the view.
    let mut bytes = build_table(9, &[(b"q", &[5])]);
    let declared = bytes.len();
    bytes.extend_from_slice(&[0xaa; 16]);
    let vpt = Vpt::new(&bytes, 9).expect("valid with trailing garbage");
    assert_eq!(vpt.header().size as usize, declared);
    let mut iter = vpt.program_iter();
    assert_eq!(iter.next().expect("entry").payload(), &[5]);
    assert!(iter.next().is_none());
}

#[test]
fn wire_helpers_are_little_endian() {
    let mut out = Vec::new();
    vpt_sdk::wire::push_u32_le(&mut out, 0x12345678);
    assert_eq!(out, vec![0x78, 0x56, 0x34, 0x12]);
    assert_eq!(vpt_sdk::wire::read_u32_le(&out, 0), 0x12345678);
    assert_eq!(vpt_sdk::wire::align8(0), 0);
    assert_eq!(vpt_sdk::wire::align8(1), 8);
    assert_eq!(vpt_sdk::wire::align8(8), 8);
    assert_eq!(vpt_sdk::wire::align8(9), 16);
    assert_eq!(vpt_sdk::wire::align8(16), 16);
}

#[test]
fn magic_is_first_field_little_endian() {
    let bytes = build_table(0, &[]);
    assert_eq!(&bytes[0..4], &[0xd9, 0x3e, 0x5c, 0x67]);
    assert_eq!(read_u32(&bytes, 0), VPT_MAGIC);
}
