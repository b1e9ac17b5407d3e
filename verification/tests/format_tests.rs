use rustitch::format::{detect_from_bytes, detect_from_extension, Format};

#[test]
fn detect_pes_and_vp3_magic() {
    assert_eq!(detect_from_bytes(b"#PES0001"), Some(Format::Pes));
    assert_eq!(detect_from_bytes(b"%vsm%xyz"), Some(Format::Vp3));
    assert_eq!(detect_from_bytes(b"#PE"), None);
    assert_eq!(detect_from_bytes(b"%vsm"), None);
    assert_eq!(detect_from_bytes(b"LA:xxxx"), None);
}

#[test]
fn detect_by_extension() {
    assert_eq!(detect_from_extension("design.pes"), Some(Format::Pes));
    assert_eq!(detect_from_extension("/a/b/DESIGN.PES"), Some(Format::Pes));
    assert_eq!(detect_from_extension("x.Dst"), Some(Format::Dst));
    assert_eq!(detect_from_extension("x.exp"), Some(Format::Exp));
    assert_eq!(detect_from_extension("x.JEF"), Some(Format::Jef));
    assert_eq!(detect_from_extension("x.vp3"), Some(Format::Vp3));
    assert_eq!(detect_from_extension("x.png"), None);
    assert_eq!(detect_from_extension("pes"), None);
    assert_eq!(detect_from_extension(".pes"), None);
    assert_eq!(detect_from_extension("archive.tar.pes"), Some(Format::Pes));
}

#[test]
fn detect_agrees_with_header() {
    let files: [&[u8]; 3] = [b"#PES0001\x0c\0\0\0", b"#PEX0001\x0c\0\0\0", b"%vsm%0001234"];
    for data in files {
        assert_eq!(
            detect_from_bytes(data) == Some(Format::Pes),
            rustitch::pes::parse_header(data).is_ok()
        );
    }
}
