use rustitch::pes::{decode_stitches, parse_header};
use rustitch::{Error, StitchCommand};

#[test]
fn parse_valid_header() {
    let mut data = vec![0u8; 20];
    data[0..4].copy_from_slice(b"#PES");
    data[4..8].copy_from_slice(b"0001");
    // PEC offset = 16 (little-endian)
    data[8..12].copy_from_slice(&16u32.to_le_bytes());

    let header = parse_header(&data).unwrap();
    assert_eq!(&header.version, b"0001");
    assert_eq!(header.pec_offset, 16);
}

#[test]
fn reject_invalid_magic() {
    let data = b"NOTPES0001\x10\x00\x00\x00";
    let err = parse_header(data).unwrap_err();
    assert!(matches!(err, Error::InvalidMagic(_)));
}

#[test]
fn reject_too_short() {
    let data = b"#PES00";
    let err = parse_header(data).unwrap_err();
    assert!(matches!(err, Error::TooShort { .. }));
}

#[test]
fn pec_decode_end_marker() {
    let data = [0xFF];
    let cmds = decode_stitches(&data).unwrap();
    assert_eq!(cmds.len(), 1);
    assert!(matches!(cmds[0], StitchCommand::End));
}

#[test]
fn pec_decode_simple_stitch() {
    let data = [0x0A, 0x14, 0xFF];
    let cmds = decode_stitches(&data).unwrap();
    assert_eq!(cmds.len(), 2);
    match &cmds[0] {
        StitchCommand::Stitch { dx, dy } => {
            assert_eq!(*dx, 10);
            assert_eq!(*dy, 20);
        }
        _ => panic!("expected Stitch"),
    }
}

#[test]
fn decode_negative_7bit() {
    let data = [0x50, 0x60, 0xFF];
    let cmds = decode_stitches(&data).unwrap();
    match &cmds[0] {
        StitchCommand::Stitch { dx, dy } => {
            assert_eq!(*dx, -48);
            assert_eq!(*dy, -32);
        }
        _ => panic!("expected Stitch"),
    }
}

#[test]
fn pec_decode_color_change() {
    let data = [0xFE, 0xB0, 0x0A, 0x14, 0xFF];
    let cmds = decode_stitches(&data).unwrap();
    assert!(matches!(cmds[0], StitchCommand::ColorChange));
    assert!(matches!(cmds[1], StitchCommand::Stitch { dx: 10, dy: 20 }));
}

#[test]
fn decode_extended_12bit() {
    let data = [0x91, 0x00, 0x05, 0xFF];
    let cmds = decode_stitches(&data).unwrap();
    assert!(matches!(cmds[0], StitchCommand::Jump { dx: 256, dy: 5 }));
}

#[test]
fn decode_trim_jump() {
    let data = [0xA0, 0x0A, 0x05, 0xFF];
    let cmds = decode_stitches(&data).unwrap();
    assert!(matches!(cmds[0], StitchCommand::Trim));
    assert!(matches!(cmds[1], StitchCommand::Jump { dx: 10, dy: 5 }));
}

/// A PES file whose PEC section starts at byte 12, with the given label
/// bytes, color table and stitch stream.
fn pes_file(label: &[u8], colors: &[u8], stitches: &[u8]) -> Vec<u8> {
    let mut data = Vec::new();
    data.extend_from_slice(b"#PES0001");
    data.extend_from_slice(&12u32.to_le_bytes());
    let mut pec = vec![0u8; 532];
    pec[3..3 + label.len()].copy_from_slice(label);
    pec[48] = (colors.len() - 1) as u8;
    pec[49..49 + colors.len()].copy_from_slice(colors);
    data.extend_from_slice(&pec);
    data.extend_from_slice(stitches);
    data
}

#[test]
fn pes_parse_full_file() {
    let data = pes_file(b"  Flower        ", &[5, 70], &[0x0A, 0x14, 0xFE, 0xB0, 0x05, 0x03, 0xFF]);
    let design = rustitch::pes::parse(&data).unwrap();
    assert_eq!(&design.header.version, b"0001");
    assert_eq!(design.header.pec_offset, 12);
    assert_eq!(design.pec_header.label, "Flower");
    assert_eq!(design.pec_header.color_count, 2);
    assert_eq!(design.pec_header.color_indices, vec![5, 70]);
    assert_eq!(
        design.commands,
        vec![
            StitchCommand::Stitch { dx: 10, dy: 20 },
            StitchCommand::ColorChange,
            StitchCommand::Stitch { dx: 5, dy: 3 },
            StitchCommand::End
        ]
    );

    let resolved = rustitch::pes::resolve(&design).unwrap();
    // The palette index 70 is past the table and takes its last entry.
    assert_eq!(resolved.colors, vec![rustitch::pes::PEC_PALETTE[5], rustitch::pes::PEC_PALETTE[64]]);
    // The stitch after the color change only moves the pen.
    assert_eq!(resolved.segments.len(), 1);
    assert_eq!((resolved.bounds.min_x, resolved.bounds.max_x), (0, 10));
}

#[test]
fn pes_invalid_label_is_empty() {
    let data = pes_file(&[0xFF, 0xFE, 0x41], &[1], &[0x01, 0x01, 0xFF]);
    let design = rustitch::pes::parse(&data).unwrap();
    assert_eq!(design.pec_header.label, "");
}

#[test]
fn pes_pec_offset_past_end() {
    let mut data = b"#PES0001".to_vec();
    data.extend_from_slice(&100u32.to_le_bytes());
    let err = rustitch::pes::parse(&data).err().unwrap();
    assert!(matches!(err, Error::InvalidPecOffset(100, 12)));
}

#[test]
fn pes_pec_section_too_short() {
    let mut data = b"#PES0001".to_vec();
    data.extend_from_slice(&12u32.to_le_bytes());
    data.extend_from_slice(&[0u8; 100]);
    let err = rustitch::pes::parse(&data).err().unwrap();
    assert!(matches!(err, Error::TooShort { expected: 532, actual: 100 }));
}

#[test]
fn pes_pec_section_without_stitches() {
    let data = pes_file(b"x", &[1], &[]);
    let err = rustitch::pes::parse(&data).err().unwrap();
    assert!(matches!(err, Error::NoStitchData));
}

#[test]
fn pes_resolve_only_jumps_is_empty() {
    let data = pes_file(b"x", &[1], &[0x91, 0x00, 0x05, 0xFF]);
    let design = rustitch::pes::parse(&data).unwrap();
    let err = rustitch::pes::resolve(&design).err().unwrap();
    assert!(matches!(err, Error::EmptyDesign));
}

#[test]
fn pec_truncated_coordinate() {
    // A 12-bit coordinate whose second byte is missing.
    let err = decode_stitches(&[0x0A, 0x91]).unwrap_err();
    assert!(matches!(err, Error::TooShort { expected: 3, actual: 2 }));
    // A record whose dy is missing.
    let err = decode_stitches(&[0x0A]).unwrap_err();
    assert!(matches!(err, Error::TooShort { expected: 2, actual: 1 }));
}

#[test]
fn pec_negative_12bit() {
    // raw 0xFFF is -1; flags 0x10 make it a jump.
    let cmds = decode_stitches(&[0x9F, 0xFF, 0x01, 0xFF]).unwrap();
    assert_eq!(cmds[0], StitchCommand::Jump { dx: -1, dy: 1 });
}

#[test]
fn pec_end_only_last() {
    let cmds = decode_stitches(&[0x01, 0x02, 0xFF, 0x03, 0x04]).unwrap();
    assert_eq!(cmds, vec![StitchCommand::Stitch { dx: 1, dy: 2 }, StitchCommand::End]);
}

#[test]
fn parse_and_resolve_dispatch() {
    let data = pes_file(b"x", &[1], &[0x01, 0x01, 0xFF]);
    let d = rustitch::parse_and_resolve(&data, rustitch::Format::Pes).unwrap();
    assert_eq!(d.segments.len(), 1);
    assert!(matches!(
        rustitch::parse_and_resolve(&data, rustitch::Format::Dst).err().unwrap(),
        Error::UnsupportedFormat
    ));
}

#[test]
fn pes_version_does_not_matter() {
    let a = pes_file(b"x", &[1, 2], &[0x01, 0x02, 0xFE, 0xB0, 0x03, 0x04, 0xFF]);
    let mut b = a.clone();
    b[4..8].copy_from_slice(b"0100");
    let da = rustitch::pes::parse(&a).unwrap();
    let db = rustitch::pes::parse(&b).unwrap();
    assert_eq!(&db.header.version, b"0100");
    assert_eq!(da.commands, db.commands);
    assert_eq!(da.pec_header.color_indices, db.pec_header.color_indices);
    assert_eq!(da.pec_header.label, db.pec_header.label);
}

#[test]
fn pes_label_trims_unicode_white_space() {
    // U+3000 and U+00A0 are white space as well as the ASCII spaces.
    let label = "\u{3000}Ab\u{a0}         ".as_bytes();
    assert_eq!(label.len(), 16);
    let data = pes_file(label, &[1], &[0x01, 0x01, 0xFF]);
    let design = rustitch::pes::parse(&data).unwrap();
    assert_eq!(design.pec_header.label, "Ab");
}

#[test]
fn pec_bytes_after_end_are_ignored() {
    let stream = [0x01, 0x02, 0xA0, 0x05, 0x06, 0xFF];
    let base = decode_stitches(&stream).unwrap();
    let mut longer = stream.to_vec();
    longer.extend_from_slice(&[0x90, 0x00, 0xFE]);
    assert_eq!(decode_stitches(&longer).unwrap(), base);
}

#[test]
fn pec_every_trim_precedes_a_jump() {
    let cmds = decode_stitches(&[0xA0, 0x05, 0x06, 0x01, 0x02, 0xA0, 0x01, 0x01, 0xFF]).unwrap();
    assert_eq!(
        cmds,
        vec![
            StitchCommand::Trim,
            StitchCommand::Jump { dx: 5, dy: 6 },
            StitchCommand::Stitch { dx: 1, dy: 2 },
            StitchCommand::Trim,
            StitchCommand::Jump { dx: 1, dy: 1 },
            StitchCommand::End
        ]
    );
    for k in 0..cmds.len() {
        if cmds[k] == StitchCommand::Trim {
            assert!(matches!(cmds[k + 1], StitchCommand::Jump { .. }));
        }
    }
}

#[test]
fn pec_stream_without_ff_has_no_end() {
    let cmds = decode_stitches(&[0x01, 0x02, 0xFE, 0xB0, 0x03, 0x04]).unwrap();
    assert_eq!(
        cmds,
        vec![StitchCommand::Stitch { dx: 1, dy: 2 }, StitchCommand::ColorChange, StitchCommand::Stitch { dx: 3, dy: 4 }]
    );
    // A 0xFF inside a coordinate is no stop mark.
    let cmds = decode_stitches(&[0x8F, 0xFF, 0x01]).unwrap();
    assert_eq!(cmds, vec![StitchCommand::Stitch { dx: -1, dy: 1 }]);
}
