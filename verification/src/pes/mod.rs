pub mod header;
pub mod pec;

use vstd::prelude::*;

pub use crate::error::Error;
pub use crate::palette::PEC_PALETTE;
pub use crate::types::{BoundingBox, ResolvedDesign, StitchCommand, StitchSegment};
pub use header::{parse_header, PesHeader};
pub use pec::{decode_stitches, parse_pec_header, PecHeader};

use crate::palette::pec_palette_color;
use pec::PecHeaderView;

verus! {

/// A parsed PES file: its header, its PEC header and its stitch commands.
pub struct PesDesign {
    pub header: PesHeader,
    pub pec_header: PecHeader,
    pub commands: Vec<StitchCommand>,
}

/// The mathematical value of a parsed PES file.
pub struct PesDesignView {
    pub header: PesHeader,
    pub pec_header: PecHeaderView,
    pub commands: Seq<StitchCommand>,
}

impl View for PesDesign {
    type V = PesDesignView;

    open spec fn view(&self) -> PesDesignView {
        PesDesignView {
            header: self.header,
            pec_header: self.pec_header@,
            commands: self.commands@,
        }
    }
}

/// Whether parsing `data` reaches a PEC header whose color count byte is 255,
/// where counting the colors adds past `u8::MAX`.
pub open spec fn pes_color_count_overflows(data: Seq<u8>) -> bool {
    match header::pes_header_spec(data) {
        Ok(h) => h.pec_offset < data.len() && pec::pec_color_count_overflows(
            data.subrange(h.pec_offset as int, data.len() as int),
        ),
        Err(_) => false,
    }
}

/// The PES file `data` parsed: the header, then the PEC header at the PEC
/// offset, then the stitch stream where the PEC header says it starts.
pub open spec fn pes_parse_spec(data: Seq<u8>) -> Result<PesDesignView, Error> {
    match header::pes_header_spec(data) {
        Err(e) => Err(e),
        Ok(h) => if h.pec_offset >= data.len() {
            Err(Error::InvalidPecOffset(h.pec_offset, data.len() as usize))
        } else {
            let pec = data.subrange(h.pec_offset as int, data.len() as int);
            match pec::pec_header_spec(pec) {
                Err(e) => Err(e),
                Ok((ph, start)) => match pec::pec_decode(pec.subrange(start, pec.len() as int)) {
                    Err(e) => Err(e),
                    Ok(c) => Ok(PesDesignView { header: h, pec_header: ph, commands: c }),
                },
            }
        },
    }
}

/// Parse a PES file from raw bytes.
pub fn parse(data: &[u8]) -> (r: Result<PesDesign, Error>)
    requires
        data@.len() <= isize::MAX,
        !pes_color_count_overflows(data@),
    ensures
        match r {
            Ok(d) => pes_parse_spec(data@) == Ok::<PesDesignView, Error>(d@),
            Err(e) => pes_parse_spec(data@) == Err::<PesDesignView, Error>(e),
        },
{
    let header = match parse_header(data) {
        Ok(h) => h,
        Err(e) => {
            return Err(e);
        },
    };
    let pec_offset = header.pec_offset as usize;

    if pec_offset >= data.len() {
        return Err(Error::InvalidPecOffset(header.pec_offset, data.len()));
    }

    let pec_data = &data[pec_offset..data.len()];
    let (pec_header, stitch_data_offset) = match parse_pec_header(pec_data) {
        Ok(v) => v,
        Err(e) => {
            return Err(e);
        },
    };
    let commands = match decode_stitches(&pec_data[stitch_data_offset..pec_data.len()]) {
        Ok(c) => c,
        Err(e) => {
            return Err(e);
        },
    };

    Ok(PesDesign { header, pec_header, commands })
}

/// The thread colors of a PEC color table.
pub open spec fn pec_thread_colors(indices: Seq<u8>) -> Seq<(u8, u8, u8)> {
    indices.map_values(|i: u8| crate::palette::pec_color(i))
}

/// Convert parsed PES design into renderable segments with absolute coordinates.
///
/// The colors are the PEC palette entries of the color table; fails with
/// `EmptyDesign` exactly when no segment is drawn.
pub fn resolve(design: &PesDesign) -> (r: Result<ResolvedDesign, Error>)
    ensures
        crate::resolve::resolves_to(
            design.commands@,
            pec_thread_colors(design.pec_header.color_indices@),
            r,
        ),
{
    let indices = &design.pec_header.color_indices;
    let mut colors: Vec<(u8, u8, u8)> = Vec::new();
    let mut k: usize = 0;
    while k < indices.len()
        invariant
            k <= indices@.len(),
            colors@ =~= pec_thread_colors(indices@.take(k as int)),
        decreases indices@.len() - k,
    {
        colors.push(pec_palette_color(indices[k]));
        k = k + 1;
    }
    assert(indices@.take(k as int) =~= indices@);
    crate::resolve::resolve(design.commands.as_slice(), colors)
}

} // verus!
