use vstd::prelude::*;

verus! {

/// The embroidery file formats this library knows.
#[derive(Debug, Clone, Copy, PartialEq, Eq, Structural)]
pub enum Format {
    Pes,
    Dst,
    Exp,
    Jef,
    Vp3,
}

/// Whether `data` starts with the bytes `magic`.
pub open spec fn starts_with(data: Seq<u8>, magic: Seq<u8>) -> bool {
    data.len() >= magic.len() && data.subrange(0, magic.len() as int) == magic
}

/// The bytes `#PES`.
pub open spec fn pes_magic_bytes() -> Seq<u8> {
    seq![0x23u8, 0x50u8, 0x45u8, 0x53u8]
}

/// The bytes `%vsm%`.
pub open spec fn vp3_magic_bytes() -> Seq<u8> {
    seq![0x25u8, 0x76u8, 0x73u8, 0x6Du8, 0x25u8]
}

/// The format that the content of `data` shows: PES by `#PES`, VP3 by
/// `%vsm%`; the others carry no magic.
pub open spec fn format_of_bytes(data: Seq<u8>) -> Option<Format> {
    if starts_with(data, pes_magic_bytes()) {
        Some(Format::Pes)
    } else if starts_with(data, vp3_magic_bytes()) {
        Some(Format::Vp3)
    } else {
        None
    }
}

/// Detect format from file content (magic bytes).
pub fn detect_from_bytes(data: &[u8]) -> (r: Option<Format>)
    ensures
        r == format_of_bytes(data@),
{
    if data.len() >= 4 && data[0] == 0x23 && data[1] == 0x50 && data[2] == 0x45 && data[3] == 0x53 {
        assert(data@.subrange(0, 4) =~= pes_magic_bytes());
        return Some(Format::Pes);
    }
    proof {
        if starts_with(data@, pes_magic_bytes()) {
            assert(data@.subrange(0, 4)[1] == data@[1]);
            assert(data@.subrange(0, 4)[2] == data@[2]);
            assert(data@.subrange(0, 4)[3] == data@[3]);
        }
    }
    if data.len() >= 5 && data[0] == 0x25 && data[1] == 0x76 && data[2] == 0x73 && data[3] == 0x6D
        && data[4] == 0x25 {
        assert(data@.subrange(0, 5) =~= vp3_magic_bytes());
        return Some(Format::Vp3);
    }
    proof {
        if starts_with(data@, vp3_magic_bytes()) {
            assert(data@.subrange(0, 5)[1] == data@[1]);
            assert(data@.subrange(0, 5)[2] == data@[2]);
            assert(data@.subrange(0, 5)[3] == data@[3]);
            assert(data@.subrange(0, 5)[4] == data@[4]);
        }
    }
    None
}

/// The bytes of the extension of a path, as `Path::extension` splits it.
pub uninterp spec fn path_extension(path: Seq<char>) -> Option<Seq<u8>>;

/// `Path::extension` of the path text, as UTF-8 bytes.
///
/// Claimed: the result is `path_extension` of the text, a function of the
/// text alone. How the extension is split off is left unsaid.
#[verifier::external_body]
fn extension_bytes(path: &str) -> (r: Option<Vec<u8>>)
    ensures
        match r {
            Some(v) => path_extension(path@) == Some(v@),
            None => path_extension(path@) is None,
        },
{
    let ext = std::path::Path::new(path).extension()?;
    Some(ext.to_str()?.as_bytes().to_vec())
}

/// ASCII lower case of a byte; other bytes stay.
pub open spec fn ascii_lower(b: u8) -> u8 {
    if 0x41 <= b <= 0x5A {
        (b + 32) as u8
    } else {
        b
    }
}

/// Whether `e`, in ASCII lower case, is the three letters `a b c`.
pub open spec fn lower_is(e: Seq<u8>, a: u8, b: u8, c: u8) -> bool {
    e.len() == 3 && ascii_lower(e[0]) == a && ascii_lower(e[1]) == b && ascii_lower(e[2]) == c
}

/// The format named by an extension, compared without regard to ASCII case.
pub open spec fn format_of_extension(e: Seq<u8>) -> Option<Format> {
    if lower_is(e, 0x70, 0x65, 0x73) {
        Some(Format::Pes)
    } else if lower_is(e, 0x64, 0x73, 0x74) {
        Some(Format::Dst)
    } else if lower_is(e, 0x65, 0x78, 0x70) {
        Some(Format::Exp)
    } else if lower_is(e, 0x6A, 0x65, 0x66) {
        Some(Format::Jef)
    } else if lower_is(e, 0x76, 0x70, 0x33) {
        Some(Format::Vp3)
    } else {
        None
    }
}

/// The format that the extension of `path` names.
pub open spec fn format_of_path(path: Seq<char>) -> Option<Format> {
    match path_extension(path) {
        Some(e) => format_of_extension(e),
        None => None,
    }
}

/// ASCII lower case of a byte.
fn to_ascii_lower(b: u8) -> (r: u8)
    ensures
        r == ascii_lower(b),
{
    if 0x41 <= b && b <= 0x5A {
        b + 32
    } else {
        b
    }
}

/// Whether `e`, in ASCII lower case, is the three letters `a b c`.
fn extension_is(e: &Vec<u8>, a: u8, b: u8, c: u8) -> (r: bool)
    ensures
        r == lower_is(e@, a, b, c),
{
    e.len() == 3 && to_ascii_lower(e[0]) == a && to_ascii_lower(e[1]) == b && to_ascii_lower(e[2])
        == c
}

/// Detect format from the extension of a file path.
pub fn detect_from_extension(path: &str) -> (r: Option<Format>)
    ensures
        r == format_of_path(path@),
{
    let ext = match extension_bytes(path) {
        Some(e) => e,
        None => {
            return None;
        },
    };
    if extension_is(&ext, 0x70, 0x65, 0x73) {
        Some(Format::Pes)
    } else if extension_is(&ext, 0x64, 0x73, 0x74) {
        Some(Format::Dst)
    } else if extension_is(&ext, 0x65, 0x78, 0x70) {
        Some(Format::Exp)
    } else if extension_is(&ext, 0x6A, 0x65, 0x66) {
        Some(Format::Jef)
    } else if extension_is(&ext, 0x76, 0x70, 0x33) {
        Some(Format::Vp3)
    } else {
        None
    }
}

} // verus!
