use rustitch::StitchCommand;

#[test]
fn mod_decode_jump() {
    // DST: b2 bit 6 = jump
    let data = [0x01, 0x00, 0x40, 0x00, 0x00, 0x03];
    let cmds = rustitch::dst::parse(&data).unwrap();
    assert!(matches!(cmds[0], StitchCommand::Jump { dx: 1, dy: 0 }));

    // JEF: 0x80 0x02 = jump
    let data = [0x80, 0x02, 0x0A, 0x14, 0x80, 0x10];
    let cmds = rustitch::jef::decode_stitches(&data).unwrap();
    assert!(matches!(
        cmds[0],
        StitchCommand::Jump { dx: 10, dy: -20 }
    ));
}

#[test]
fn mod_decode_color_change() {
    // DST: b2 bit 7 = color change
    let data = [0x00, 0x00, 0x80, 0x01, 0x00, 0x00, 0x00, 0x00, 0x03];
    let cmds = rustitch::dst::parse(&data).unwrap();
    assert!(matches!(cmds[0], StitchCommand::ColorChange));

    // JEF: 0x80 0x01 = color change
    let data = [0x0A, 0x14, 0x80, 0x01, 0x05, 0x03, 0x80, 0x10];
    let cmds = rustitch::jef::decode_stitches(&data).unwrap();
    assert!(matches!(cmds[1], StitchCommand::ColorChange));
}
