use wild_container::ContainerDecoder;
use wild_container::Error;
use wild_container::Section;

fn manual_encode() -> Vec<u8> {
    vec![
        0x57, 0x49, 0x4C, 0x44, // identifier
        0x01, // sections.len()
        0x00, // 0: id
        0x00, 0x00, 0x00, 0x00, 0x00, 0x00, 0x00, 0x0E, // 1: addr
        0x00, 0x00, 0x00, 0x00, // flags
        0x00, 0x00, 0x00, 0x00, // checksum
        0x00, 0x00, 0x00, 0x00, 0x00, 0x00, 0x00, 0x00, // body.len()
    ]
}

#[test]
fn encode() {
    let section = Section { id: 0, flags: 0, checksum: 0, body: vec![] };

    let encoded = wild_container::encode(vec![section]).expect("should not error");

    assert_eq!(encoded, manual_encode());
}

#[test]
fn decode() {
    let encoded = manual_encode();

    let mut decoder = ContainerDecoder::new(encoded).expect("should not error");
    let section = decoder.next().expect("should exist");

    assert_eq!(section, Section { id: 0, flags: 0, checksum: 0, body: vec![] })
}

#[test]
fn header_shape_zero_sections() {
    let encoded = wild_container::encode(vec![]).expect("should not error");
    assert_eq!(encoded, vec![0x57, 0x49, 0x4C, 0x44, 0x00]);
}

#[test]
fn offsets_are_prefix_sums() {
    // Two sections with different body lengths: the second offset must
    // account for the first body's actual size.
    let sections = vec![
        Section { id: 1, flags: 0, checksum: 0, body: vec![0xAA, 0xBB, 0xCC] },
        Section { id: 2, flags: 0, checksum: 0, body: vec![0xDD] },
    ];
    let encoded = wild_container::encode(sections).expect("should not error");

    // header: 4 magic + 1 count + 2 * 9 table entries = 23 bytes
    assert_eq!(encoded[4], 2);
    assert_eq!(encoded[5], 1);
    let off0 = u64::from_be_bytes(encoded[6..14].try_into().unwrap());
    assert_eq!(off0, 23);
    assert_eq!(encoded[14], 2);
    let off1 = u64::from_be_bytes(encoded[15..23].try_into().unwrap());
    // 23 + 16 fixed bytes + 3 body bytes
    assert_eq!(off1, 42);

    // reading at each offset reproduces the section
    let body_len0 = u64::from_be_bytes(encoded[31..39].try_into().unwrap());
    assert_eq!(body_len0, 3);
    assert_eq!(&encoded[39..42], &[0xAA, 0xBB, 0xCC]);
    let body_len1 = u64::from_be_bytes(encoded[50..58].try_into().unwrap());
    assert_eq!(body_len1, 1);
    assert_eq!(&encoded[58..59], &[0xDD]);
    assert_eq!(encoded.len(), 59);
}

#[test]
fn round_trip_multiple_sections() {
    let sections = vec![
        Section { id: 9, flags: 0xDEADBEEF, checksum: 0x12345678, body: vec![1, 2, 3, 4, 5] },
        Section { id: 3, flags: 0, checksum: 0xFFFFFFFF, body: vec![] },
        Section { id: 9, flags: 7, checksum: 1, body: vec![0xFF; 1000] },
    ];
    let encoded = wild_container::encode(sections.clone()).expect("should not error");

    let mut decoder = ContainerDecoder::new(encoded).expect("should not error");
    let mut decoded = Vec::new();
    while let Some(section) = decoder.next() {
        decoded.push(section);
    }
    assert_eq!(decoded, sections);
}

#[test]
fn round_trip_max_sections() {
    let mut sections = Vec::new();
    for i in 0..255u32 {
        sections.push(Section {
            id: i as u8,
            flags: i,
            checksum: !i,
            body: vec![i as u8; (i % 17) as usize],
        });
    }
    let encoded = wild_container::encode(sections.clone()).expect("should not error");

    let mut decoder = ContainerDecoder::new(encoded).expect("should not error");
    assert_eq!(decoder.sections.len(), 255);
    let mut decoded = Vec::new();
    while let Some(section) = decoder.next() {
        decoded.push(section);
    }
    assert_eq!(decoded, sections);
}

#[test]
fn too_many_sections_rejected() {
    let mut sections = Vec::new();
    for i in 0..256u32 {
        sections.push(Section { id: i as u8, flags: 0, checksum: 0, body: vec![] });
    }
    let result = wild_container::encode(sections);
    assert_eq!(result, Err(Error::TooManySections));
}

#[test]
fn magic_rejection() {
    let mut bad = manual_encode();
    bad[0] = 0x00;
    let result = ContainerDecoder::new(bad);
    match result {
        Err(Error::InvalidIdentifier(seen)) => assert_eq!(seen, 0x00494C44),
        other => panic!("expected InvalidIdentifier, got {:?}", other.map(|_| ())),
    }
}

#[test]
fn short_header_is_io_error() {
    assert_eq!(ContainerDecoder::new(vec![]).map(|_| ()), Err(Error::Io));
    assert_eq!(ContainerDecoder::new(vec![0x57, 0x49, 0x4C]).map(|_| ()), Err(Error::Io));
    // magic alone, count byte missing
    assert_eq!(ContainerDecoder::new(vec![0x57, 0x49, 0x4C, 0x44]).map(|_| ()), Err(Error::Io));
    // count declares one section but the table entry is missing
    assert_eq!(
        ContainerDecoder::new(vec![0x57, 0x49, 0x4C, 0x44, 0x01]).map(|_| ()),
        Err(Error::Io)
    );
}

#[test]
fn truncation_is_silent_exhaustion() {
    let sections = vec![
        Section { id: 1, flags: 2, checksum: 3, body: vec![10, 20] },
        Section { id: 2, flags: 4, checksum: 5, body: vec![30, 40, 50] },
    ];
    let mut encoded = wild_container::encode(sections.clone()).expect("should not error");
    // cut inside the second section's body
    encoded.truncate(encoded.len() - 2);

    let mut decoder = ContainerDecoder::new(encoded).expect("should not error");
    assert_eq!(decoder.next(), Some(sections[0].clone()));
    assert_eq!(decoder.next(), None);
    assert_eq!(decoder.next(), None);
}

#[test]
fn strict_mode_surfaces_truncation() {
    let sections = vec![
        Section { id: 1, flags: 2, checksum: 3, body: vec![10, 20] },
        Section { id: 2, flags: 4, checksum: 5, body: vec![30, 40, 50] },
    ];
    let mut encoded = wild_container::encode(sections.clone()).expect("should not error");
    encoded.truncate(encoded.len() - 2);

    let mut decoder = ContainerDecoder::new(encoded).expect("should not error");
    assert_eq!(decoder.try_next(), Ok(Some(sections[0].clone())));
    assert_eq!(decoder.try_next(), Err(Error::Io));
    assert_eq!(decoder.try_next(), Ok(None));
}

#[test]
fn sections_follow_table_order() {
    // A hand-built container whose offset table lists the later record
    // first: the decoder follows the table, not the physical layout.
    let mut bytes = vec![
        0x57, 0x49, 0x4C, 0x44, // identifier
        0x02, // two sections
        0x07, // entry 0: id 7, offset 40 (the physically second record)
        0x00, 0x00, 0x00, 0x00, 0x00, 0x00, 0x00, 0x28,
        0x08, // entry 1: id 8, offset 23 (the physically first record)
        0x00, 0x00, 0x00, 0x00, 0x00, 0x00, 0x00, 0x17,
    ];
    // record at offset 23: flags 1, checksum 2, body [0xAB]
    bytes.extend_from_slice(&[0, 0, 0, 1, 0, 0, 0, 2, 0, 0, 0, 0, 0, 0, 0, 1, 0xAB]);
    // record at offset 40: flags 3, checksum 4, empty body
    bytes.extend_from_slice(&[0, 0, 0, 3, 0, 0, 0, 4, 0, 0, 0, 0, 0, 0, 0, 0]);

    let mut decoder = ContainerDecoder::new(bytes).expect("should not error");
    assert_eq!(decoder.next(), Some(Section { id: 7, flags: 3, checksum: 4, body: vec![] }));
    assert_eq!(decoder.next(), Some(Section { id: 8, flags: 1, checksum: 2, body: vec![0xAB] }));
    assert_eq!(decoder.next(), None);
}

#[test]
fn failed_step_exhausts_decoder() {
    // entry 0 points past the end of the input; entry 1 is intact. The first
    // failed step is terminal, so the intact section is never produced and
    // corruption shows only as fewer sections than the header promised.
    let mut bytes = vec![
        0x57, 0x49, 0x4C, 0x44, // identifier
        0x02, // two sections
        0x07, // entry 0: id 7, offset 200 (past the end)
        0x00, 0x00, 0x00, 0x00, 0x00, 0x00, 0x00, 0xC8,
        0x08, // entry 1: id 8, offset 23 (intact)
        0x00, 0x00, 0x00, 0x00, 0x00, 0x00, 0x00, 0x17,
    ];
    // record at offset 23: flags 1, checksum 2, body [0xAB]
    bytes.extend_from_slice(&[0, 0, 0, 1, 0, 0, 0, 2, 0, 0, 0, 0, 0, 0, 0, 1, 0xAB]);

    let mut decoder = ContainerDecoder::new(bytes).expect("should not error");
    assert_eq!(decoder.next(), None);
    assert_eq!(decoder.next(), None);
}

#[test]
fn oversized_body_length_yields_none() {
    let mut bytes = manual_encode();
    // claim a body far longer than the remaining input
    bytes[29] = 0xFF;
    let mut decoder = ContainerDecoder::new(bytes).expect("should not error");
    assert_eq!(decoder.next(), None);
}
