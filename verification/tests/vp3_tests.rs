use rustitch::vp3::{decode_vp3_stitches, parse, parse_checked, Reader};
use rustitch::{Error, StitchCommand};

#[test]
fn decode_small_stitch() {
    let mut commands = Vec::new();
    // Two small stitches: (10, -20) and (5, -3)
    let data = [0x0A, 0x14, 0x05, 0x03];
    let mut reader = Reader::new(&data);
    decode_vp3_stitches(&mut reader, &mut commands, data.len());
    assert_eq!(commands.len(), 2);
    assert!(matches!(
        commands[0],
        StitchCommand::Stitch { dx: 10, dy: -20 }
    ));
}

#[test]
fn decode_large_jump() {
    let mut commands = Vec::new();
    // Large move: high bit set, 2-byte BE dx and dy
    // dx = 0x8100 = -32512 as i16, dy = 0x0100 = 256
    let data = [0x81, 0x00, 0x01, 0x00];
    let mut reader = Reader::new(&data);
    decode_vp3_stitches(&mut reader, &mut commands, data.len());
    assert_eq!(commands.len(), 1);
    assert!(matches!(commands[0], StitchCommand::Jump { .. }));
}

#[test]
fn vp3_zero_move_is_trim() {
    let mut commands = Vec::new();
    let data = [0x00, 0x00, 0x81, 0x00, 0x01, 0x00];
    let mut reader = Reader::new(&data);
    decode_vp3_stitches(&mut reader, &mut commands, data.len());
    assert_eq!(
        commands,
        vec![StitchCommand::Trim, StitchCommand::Jump { dx: -32512, dy: -256 }]
    );
}

fn string(s: &[u8]) -> Vec<u8> {
    let mut v = (s.len() as u16).to_be_bytes().to_vec();
    v.extend_from_slice(s);
    v
}

/// A small VP3 file with one color section holding `stitches`.
fn vp3_file(stitches: &[u8]) -> Vec<u8> {
    let mut d = string(b"%vsm%");
    d.extend_from_slice(&[0u8; 24]);
    d.extend(string(b""));
    d.extend(string(b""));
    d.extend_from_slice(&[0u8; 6]);
    d.extend(string(b""));
    d.extend_from_slice(&1u16.to_be_bytes()); // one color section
    d.extend_from_slice(&[0u8; 8]);
    d.extend(string(b""));
    d.extend_from_slice(&[200, 100, 50]);
    d.extend(string(b""));
    d.extend(string(b""));
    d.extend_from_slice(&[0u8; 18]);
    d.extend_from_slice(&(stitches.len() as u32).to_be_bytes());
    d.extend_from_slice(stitches);
    d
}

#[test]
fn vp3_parse_one_section() {
    let data = vp3_file(&[0x0A, 0x14, 0x05, 0x03]);
    let (cmds, colors) = parse(&data).unwrap();
    assert_eq!(colors, vec![(200, 100, 50)]);
    assert_eq!(
        cmds,
        vec![
            StitchCommand::Stitch { dx: 10, dy: -20 },
            StitchCommand::Stitch { dx: 5, dy: -3 },
            StitchCommand::End
        ]
    );
}

#[test]
fn vp3_too_short() {
    let err = parse(&[0u8; 10]).unwrap_err();
    assert!(matches!(err, Error::TooShort { expected: 20, actual: 10 }));
}

#[test]
fn vp3_string_too_long() {
    let mut data = vec![0x01, 0x00];
    data.extend_from_slice(&[0u8; 30]);
    match parse(&data).unwrap_err() {
        Error::InvalidHeader(m) => assert_eq!(m, "string length 256 exceeds remaining data 30"),
        e => panic!("unexpected error {e:?}"),
    }
}

#[test]
fn vp3_no_stitches() {
    let data = vp3_file(&[]);
    let err = parse(&data).unwrap_err();
    assert!(matches!(err, Error::NoStitchData));
}

#[test]
fn vp3_parse_and_resolve() {
    let data = vp3_file(&[0x0A, 0x14, 0x05, 0x03]);
    let d = rustitch::vp3::parse_and_resolve(&data).unwrap();
    assert_eq!(d.segments.len(), 2);
    assert_eq!(d.colors, vec![(200, 100, 50)]);
    assert_eq!((d.bounds.min_y, d.bounds.max_y), (-23, 0));
}

#[test]
fn vp3_jump_of_i16_min_is_refused() {
    let mut commands = vec![StitchCommand::Trim];
    let data = [0x80, 0x00, 0x80, 0x00];
    let mut reader = Reader::new(&data);
    assert!(!decode_vp3_stitches(&mut reader, &mut commands, data.len()));
    assert_eq!(commands, vec![StitchCommand::Trim]);
    assert!(parse_checked(&vp3_file(&[0x80, 0x00, 0x80, 0x00])).is_none());
}

#[test]
fn vp3_parse_checked_agrees_with_parse() {
    let data = vp3_file(&[0x0A, 0x14, 0x05, 0x03]);
    let (cmds, colors) = parse_checked(&data).unwrap().unwrap();
    assert_eq!((cmds, colors), parse(&data).unwrap());
    assert!(matches!(parse_checked(&[0u8; 10]), Some(Err(Error::TooShort { expected: 20, actual: 10 }))));
}

#[test]
fn vp3_refused_jump_keeps_what_came_before() {
    let mut commands = Vec::new();
    let data = [0x0A, 0x14, 0x00, 0x00, 0x80, 0x00, 0x80, 0x00, 0x01, 0x01];
    let mut reader = Reader::new(&data);
    assert!(!decode_vp3_stitches(&mut reader, &mut commands, data.len()));
    assert_eq!(commands, vec![StitchCommand::Stitch { dx: 10, dy: -20 }, StitchCommand::Trim]);
}
