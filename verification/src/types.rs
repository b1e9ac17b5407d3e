use vstd::prelude::*;

verus! {

/// One machine command decoded from an embroidery file.
///
/// `Stitch` and `Jump` carry a relative movement in file units.
#[derive(Debug, Clone, Copy, PartialEq, Eq, Structural)]
pub enum StitchCommand {
    Stitch { dx: i16, dy: i16 },
    Jump { dx: i16, dy: i16 },
    Trim,
    ColorChange,
    End,
}

/// A drawn line from `(x0, y0)` to `(x1, y1)` in absolute design units, sewn
/// with thread number `color_index`.
///
/// Coordinates are exact sums of the relative movements; `i128` is wide enough
/// that no command list a `Vec` can hold makes them overflow.
#[derive(Debug, Clone, Copy, PartialEq, Eq, Structural)]
pub struct StitchSegment {
    pub x0: i128,
    pub y0: i128,
    pub x1: i128,
    pub y1: i128,
    pub color_index: usize,
}

/// The mathematical value of a segment.
pub struct SegmentView {
    pub x0: int,
    pub y0: int,
    pub x1: int,
    pub y1: int,
    pub color: int,
}

impl View for StitchSegment {
    type V = SegmentView;

    open spec fn view(&self) -> SegmentView {
        SegmentView {
            x0: self.x0 as int,
            y0: self.y0 as int,
            x1: self.x1 as int,
            y1: self.y1 as int,
            color: self.color_index as int,
        }
    }
}

/// The smallest rectangle holding every segment end point.
#[derive(Debug, Clone, Copy, PartialEq, Eq, Structural)]
pub struct BoundingBox {
    pub min_x: i128,
    pub max_x: i128,
    pub min_y: i128,
    pub max_y: i128,
}

/// A design ready to be drawn: its segments, its thread colors (indexed by
/// `StitchSegment::color_index`) and its bounding box.
pub struct ResolvedDesign {
    pub segments: Vec<StitchSegment>,
    pub colors: Vec<(u8, u8, u8)>,
    pub bounds: BoundingBox,
}

/// The views of a list of segments.
pub open spec fn segment_views(segs: Seq<StitchSegment>) -> Seq<SegmentView> {
    segs.map_values(|s: StitchSegment| s@)
}

} // verus!
