use rustitch::jef::{decode_stitches, parse};
use rustitch::{Error, StitchCommand};

#[test]
fn decode_simple_stitches() {
    let data = [0x0A, 0x14, 0x05, 0x03, 0x80, 0x10];
    let cmds = decode_stitches(&data).unwrap();
    assert!(matches!(
        cmds[0],
        StitchCommand::Stitch { dx: 10, dy: -20 }
    ));
    assert!(matches!(cmds[1], StitchCommand::Stitch { dx: 5, dy: -3 }));
    assert!(matches!(cmds[2], StitchCommand::End));
}

fn jef_file(offset: u32, colors: &[i32], stitches: &[u8]) -> Vec<u8> {
    let mut data = vec![0u8; 116];
    data[0..4].copy_from_slice(&offset.to_le_bytes());
    data[24..28].copy_from_slice(&(colors.len() as u32).to_le_bytes());
    for c in colors {
        data.extend_from_slice(&c.to_le_bytes());
    }
    while data.len() < offset as usize {
        data.push(0);
    }
    data.extend_from_slice(stitches);
    data
}

#[test]
fn jef_too_short() {
    let err = parse(&[0u8; 115]).unwrap_err();
    assert!(matches!(err, Error::TooShort { expected: 116, actual: 115 }));
}

#[test]
fn jef_offset_past_end() {
    let mut data = vec![0u8; 120];
    data[0..4].copy_from_slice(&500u32.to_le_bytes());
    match parse(&data).unwrap_err() {
        Error::InvalidHeader(m) => {
            assert_eq!(m, "stitch data offset 500 exceeds file length 120")
        }
        e => panic!("unexpected error {e:?}"),
    }
}

#[test]
fn jef_colors_from_palette() {
    let data = jef_file(124, &[2, 500], &[0x01, 0x01, 0x80, 0x10]);
    let (cmds, colors) = parse(&data).unwrap();
    assert_eq!(cmds, vec![StitchCommand::Stitch { dx: 1, dy: -1 }, StitchCommand::End]);
    assert_eq!(colors.len(), 2);
    assert_eq!(colors[0], rustitch::jef::palette::JEF_PALETTE[2]);
    // An index outside the palette takes entry 0.
    assert_eq!(colors[1], rustitch::jef::palette::JEF_PALETTE[0]);
}

#[test]
fn jef_no_colors_gives_black() {
    let data = jef_file(116, &[], &[0x01, 0x01]);
    let (cmds, colors) = parse(&data).unwrap();
    assert_eq!(colors, vec![(0, 0, 0)]);
    assert_eq!(cmds, vec![StitchCommand::Stitch { dx: 1, dy: -1 }, StitchCommand::End]);
}

#[test]
fn jef_color_table_stops_at_end_of_data() {
    // The header claims 3 colors but only one entry fits before the data ends.
    let mut data = jef_file(116, &[5], &[]);
    data[24..28].copy_from_slice(&3u32.to_le_bytes());
    data[0..4].copy_from_slice(&118u32.to_le_bytes());
    data.extend_from_slice(&[0x02, 0x02]);
    let (_, colors) = parse(&data).unwrap();
    assert_eq!(colors, vec![rustitch::jef::palette::JEF_PALETTE[5]]);
}

#[test]
fn jef_empty_stream() {
    let err = decode_stitches(&[0x80]).unwrap_err();
    assert!(matches!(err, Error::NoStitchData));
}
