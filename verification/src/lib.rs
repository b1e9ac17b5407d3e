pub mod bytes;
pub mod dst;
pub mod error;
pub mod exp;
pub mod format;
pub mod jef;
pub mod laws;
pub mod motion;
pub mod palette;
pub mod pes;
pub mod render;
pub mod resolve;
pub mod text;
pub mod types;
pub mod vp3;

use vstd::prelude::*;

pub use error::Error;
pub use format::Format;
pub use render::encode_png;
pub use types::{BoundingBox, ResolvedDesign, StitchCommand, StitchSegment};

verus! {

/// Parse a design of the given format and resolve it; only PES is supported.
pub fn parse_and_resolve(data: &[u8], fmt: Format) -> (r: Result<ResolvedDesign, Error>)
    requires
        fmt == Format::Pes ==> data@.len() <= isize::MAX,
        fmt == Format::Pes ==> !pes::pes_color_count_overflows(data@),
    ensures
        fmt != Format::Pes ==> r matches Err(Error::UnsupportedFormat),
        fmt == Format::Pes ==> match pes::pes_parse_spec(data@) {
            Err(e) => r matches Err(e2) && e2 == e,
            Ok(d) => resolve::resolves_to(
                d.commands,
                pes::pec_thread_colors(d.pec_header.color_indices),
                r,
            ),
        },
{
    match fmt {
        Format::Pes => {
            let design = match pes::parse(data) {
                Ok(d) => d,
                Err(e) => {
                    return Err(e);
                },
            };
            pes::resolve(&design)
        },
        _ => Err(Error::UnsupportedFormat),
    }
}

} // verus!
