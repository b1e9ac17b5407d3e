use vstd::prelude::*;

verus! {

#[verifier::external_type_specification]
#[verifier::external_body]
pub struct ExPngEncodingError(png::EncodingError);

/// Everything that can go wrong while reading or drawing a design.
#[derive(Debug)]
pub enum Error {
    /// The file does not start with `#PES`; holds the four bytes found.
    InvalidMagic([u8; 4]),
    /// The data ends before `expected` bytes; `actual` bytes were there.
    TooShort { expected: usize, actual: usize },
    /// The PEC section offset (first field) lies at or past the file length (second field).
    InvalidPecOffset(u32, usize),
    /// A header field is inconsistent with the data.
    InvalidHeader(String),
    /// The stitch section holds no command.
    NoStitchData,
    /// No segment is drawn.
    EmptyDesign,
    /// The format is recognised but not supported by this operation.
    UnsupportedFormat,
    /// Drawing failed.
    Render(String),
    /// The PNG encoder refused the image.
    PngEncode(png::EncodingError),
}

/// The mathematical value of an error: texts become character sequences and
/// the bytes of a wrong magic a byte sequence; the encoder's error stays.
pub enum ErrorView {
    InvalidMagic(Seq<u8>),
    TooShort { expected: usize, actual: usize },
    InvalidPecOffset(u32, usize),
    InvalidHeader(Seq<char>),
    NoStitchData,
    EmptyDesign,
    UnsupportedFormat,
    Render(Seq<char>),
    PngEncode(png::EncodingError),
}

impl View for Error {
    type V = ErrorView;

    open spec fn view(&self) -> ErrorView {
        match self {
            Error::InvalidMagic(m) => ErrorView::InvalidMagic(m@),
            Error::TooShort { expected, actual } => ErrorView::TooShort {
                expected: *expected,
                actual: *actual,
            },
            Error::InvalidPecOffset(o, l) => ErrorView::InvalidPecOffset(*o, *l),
            Error::InvalidHeader(s) => ErrorView::InvalidHeader(s@),
            Error::NoStitchData => ErrorView::NoStitchData,
            Error::EmptyDesign => ErrorView::EmptyDesign,
            Error::UnsupportedFormat => ErrorView::UnsupportedFormat,
            Error::Render(s) => ErrorView::Render(s@),
            Error::PngEncode(e) => ErrorView::PngEncode(*e),
        }
    }
}

} // verus!
