use rustitch::exp::parse;
use rustitch::{Error, StitchCommand};

#[test]
fn parse_simple_stitches() {
    let data = [0x0A, 0x14, 0x05, 0x03];
    let cmds = parse(&data).unwrap();
    assert!(matches!(
        cmds[0],
        StitchCommand::Stitch { dx: 10, dy: 20 }
    ));
    assert!(matches!(cmds[1], StitchCommand::Stitch { dx: 5, dy: 3 }));
    assert!(matches!(cmds[2], StitchCommand::End));
}

#[test]
fn parse_negative_coords() {
    // -10 as i8 = 0xF6, -20 as i8 = 0xEC
    let data = [0xF6, 0xEC];
    let cmds = parse(&data).unwrap();
    assert!(matches!(
        cmds[0],
        StitchCommand::Stitch { dx: -10, dy: -20 }
    ));
}

#[test]
fn parse_color_change() {
    let data = [0x0A, 0x14, 0x80, 0x01, 0x05, 0x03];
    let cmds = parse(&data).unwrap();
    assert!(matches!(cmds[0], StitchCommand::Stitch { .. }));
    assert!(matches!(cmds[1], StitchCommand::ColorChange));
    assert!(matches!(cmds[2], StitchCommand::Stitch { dx: 5, dy: 3 }));
}

#[test]
fn parse_jump() {
    let data = [0x80, 0x04, 0x0A, 0x14];
    let cmds = parse(&data).unwrap();
    assert!(matches!(
        cmds[0],
        StitchCommand::Jump { dx: 10, dy: 20 }
    ));
}

#[test]
fn parse_trim() {
    let data = [0x0A, 0x14, 0x80, 0x80, 0x05, 0x03];
    let cmds = parse(&data).unwrap();
    assert!(matches!(cmds[1], StitchCommand::Trim));
}

#[test]
fn exp_too_short() {
    let err = parse(&[0x01]).unwrap_err();
    assert!(matches!(err, Error::TooShort { expected: 2, actual: 1 }));
}

#[test]
fn exp_only_escapes_is_no_stitch_data() {
    // An unknown escape and a jump without its movement give no command.
    let err = parse(&[0x80, 0x07, 0x80, 0x04, 0x01]).unwrap_err();
    assert!(matches!(err, Error::NoStitchData));
}

#[test]
fn exp_extreme_bytes() {
    let cmds = parse(&[0x7F, 0x81]).unwrap();
    assert_eq!(cmds, vec![StitchCommand::Stitch { dx: 127, dy: -127 }, StitchCommand::End]);
}

#[test]
fn exp_parse_and_resolve_draws_stitches() {
    let data = [0x0A, 0x14, 0x05, 0x03];
    let d = rustitch::exp::parse_and_resolve(&data).unwrap();
    assert_eq!(d.segments.len(), 2);
    assert_eq!((d.segments[1].x0, d.segments[1].y0), (10, 20));
    assert_eq!((d.segments[1].x1, d.segments[1].y1), (15, 23));
    assert_eq!(d.colors.len(), 1);
    assert_eq!((d.bounds.min_x, d.bounds.max_x, d.bounds.min_y, d.bounds.max_y), (0, 15, 0, 23));
}
