use rustitch::dst::{decode_dx, decode_dy, parse};
use rustitch::{Error, StitchCommand};

#[test]
fn mod_decode_end_marker() {
    // b2 = 0x03 means end
    let data = [0x00, 0x00, 0x03];
    let cmds = parse(&data).unwrap_err();
    assert!(matches!(cmds, Error::NoStitchData));
}

#[test]
fn mod_decode_simple_stitch() {
    // A normal stitch followed by end
    // dx=+1: b0 bit 0. dy=+1: b0 bit 7. b2=0x00 (normal stitch)
    // Then end marker
    let data = [0x81, 0x00, 0x00, 0x00, 0x00, 0x03];
    let cmds = parse(&data).unwrap();
    assert!(matches!(cmds[0], StitchCommand::Stitch { dx: 1, dy: -1 }));
    assert!(matches!(cmds[1], StitchCommand::End));
}

#[test]
fn decode_dx_values() {
    assert_eq!(decode_dx(0x01, 0x00, 0x00), 1);
    assert_eq!(decode_dx(0x02, 0x00, 0x00), -1);
    assert_eq!(decode_dx(0x04, 0x00, 0x00), 9);
    assert_eq!(decode_dx(0x00, 0x04, 0x00), 27);
    assert_eq!(decode_dx(0x00, 0x00, 0x04), 81);
    assert_eq!(decode_dx(0x05, 0x05, 0x04), 1 + 9 + 27 + 81); // 118
}

#[test]
fn decode_dy_values() {
    assert_eq!(decode_dy(0x80, 0x00, 0x00), -1);
    assert_eq!(decode_dy(0x40, 0x00, 0x00), 1);
    assert_eq!(decode_dy(0x20, 0x00, 0x00), -9);
    assert_eq!(decode_dy(0x00, 0x20, 0x00), -27);
    assert_eq!(decode_dy(0x00, 0x00, 0x20), -81);
}

#[test]
fn dst_too_short() {
    let err = parse(&[0x00, 0x00]).unwrap_err();
    assert!(matches!(err, Error::TooShort { expected: 3, actual: 2 }));
}

#[test]
fn dst_end_added_when_missing() {
    // One stitch and a trailing partial record: End is appended.
    let data = [0x01, 0x00, 0x00, 0x7F];
    let cmds = parse(&data).unwrap();
    assert_eq!(cmds, vec![StitchCommand::Stitch { dx: 1, dy: 0 }, StitchCommand::End]);
}

#[test]
fn dst_extreme_moves() {
    assert_eq!(decode_dx(0x0A, 0x0A, 0x08), -(1 + 9 + 3 + 27 + 81));
    assert_eq!(decode_dx(0x00, 0x02, 0x00), -3);
    assert_eq!(decode_dy(0xA0, 0xA0, 0x20), -(1 + 9 + 3 + 27 + 81));
    assert_eq!(decode_dy(0x50, 0x50, 0x10), 1 + 9 + 3 + 27 + 81);
}

#[test]
fn dst_header_is_skipped() {
    let mut data = vec![0u8; 512];
    data[0] = b'L';
    data[1] = b'A';
    data[2] = b':';
    data.extend_from_slice(&[0x01, 0x00, 0x40, 0x00, 0x00, 0x03]);
    let cmds = parse(&data).unwrap();
    assert_eq!(cmds, vec![StitchCommand::Jump { dx: 1, dy: 0 }, StitchCommand::End]);
}

#[test]
fn dst_parse_and_resolve_colors() {
    // stitch, color change, stitch, stitch, end
    let data = [
        0x01, 0x00, 0x00, 0x00, 0x00, 0x80, 0x01, 0x00, 0x00, 0x01, 0x00, 0x00, 0x00, 0x00, 0x03,
    ];
    let d = rustitch::dst::parse_and_resolve(&data).unwrap();
    assert_eq!(d.colors.len(), 2);
    assert_eq!(d.colors[0], rustitch::palette::PEC_PALETTE[1]);
    assert_eq!(d.colors[1], rustitch::palette::PEC_PALETTE[2]);
    // The stitch after the color change is not drawn.
    assert_eq!(d.segments.len(), 2);
    assert_eq!(d.segments[1].color_index, 1);
    assert_eq!((d.segments[1].x0, d.segments[1].x1), (2, 3));
}

#[test]
fn dst_dy_mirrors_dx() {
    for &(b0, b1, b2) in &[(0xA5u8, 0x5Au8, 0x30u8), (0x0F, 0x70, 0x10), (0xF0, 0x41, 0x23), (0x12, 0x34, 0x56)] {
        assert_eq!(decode_dy(b0, b1, b2), -decode_dx(b0.reverse_bits(), b1.reverse_bits(), b2.reverse_bits()));
    }
    // Bit 7 of the second byte adds 3 to dy; bit 0 adds nothing to dx.
    assert_eq!(decode_dy(0, 0x80, 0), -3);
    assert_eq!(decode_dx(0, 0x01, 0), 0);
}
