use vstd::prelude::*;

use crate::error::Error;
use crate::types::{BoundingBox, ResolvedDesign, SegmentView, StitchCommand, StitchSegment};

verus! {

/// The pen while a command list is followed: its position, the thread in use,
/// whether the needle is down (the next stitch is drawn), whether an `End`
/// has been met, and the segments drawn so far.
pub struct PenState {
    pub x: int,
    pub y: int,
    pub color: int,
    pub pen_down: bool,
    pub stopped: bool,
    pub segments: Seq<SegmentView>,
}

/// The pen before the first command: at the origin, thread 0, needle down.
pub open spec fn initial_pen() -> PenState {
    PenState { x: 0, y: 0, color: 0, pen_down: true, stopped: false, segments: Seq::empty() }
}

/// What one command does to the pen.
///
/// A stitch moves the pen and draws a segment when the needle was down; a jump
/// moves without drawing; trims, jumps and color changes lift the needle; a
/// color change moves to the next thread; `End` stops everything after it.
pub open spec fn pen_step(s: PenState, c: StitchCommand) -> PenState {
    if s.stopped {
        s
    } else {
        match c {
            StitchCommand::Stitch { dx, dy } => PenState {
                x: s.x + dx,
                y: s.y + dy,
                pen_down: true,
                segments: if s.pen_down {
                    s.segments.push(
                        SegmentView { x0: s.x, y0: s.y, x1: s.x + dx, y1: s.y + dy, color: s.color },
                    )
                } else {
                    s.segments
                },
                ..s
            },
            StitchCommand::Jump { dx, dy } => PenState {
                x: s.x + dx,
                y: s.y + dy,
                pen_down: false,
                ..s
            },
            StitchCommand::Trim => PenState { pen_down: false, ..s },
            StitchCommand::ColorChange => PenState { color: s.color + 1, pen_down: false, ..s },
            StitchCommand::End => PenState { stopped: true, ..s },
        }
    }
}

/// The pen after following every command of `cmds` in order.
pub open spec fn pen_run(cmds: Seq<StitchCommand>) -> PenState
    decreases cmds.len(),
{
    if cmds.len() == 0 {
        initial_pen()
    } else {
        pen_step(pen_run(cmds.drop_last()), cmds.last())
    }
}

/// The segments that following `cmds` draws.
pub open spec fn resolved_segments(cmds: Seq<StitchCommand>) -> Seq<SegmentView> {
    pen_run(cmds).segments
}

/// `b` is the bounding box of `segs`: each bound is reached by some end point
/// and no end point lies outside.
pub open spec fn is_bounding_box(segs: Seq<SegmentView>, b: BoundingBox) -> bool {
    &&& forall|k: int|
        0 <= k < segs.len() ==> {
            &&& b.min_x <= segs[k].x0 && b.min_x <= segs[k].x1
            &&& b.max_x >= segs[k].x0 && b.max_x >= segs[k].x1
            &&& b.min_y <= segs[k].y0 && b.min_y <= segs[k].y1
            &&& b.max_y >= segs[k].y0 && b.max_y >= segs[k].y1
        }
    &&& exists|k: int| 0 <= k < segs.len() && (segs[k].x0 == b.min_x || segs[k].x1 == b.min_x)
    &&& exists|k: int| 0 <= k < segs.len() && (segs[k].x0 == b.max_x || segs[k].x1 == b.max_x)
    &&& exists|k: int| 0 <= k < segs.len() && (segs[k].y0 == b.min_y || segs[k].y1 == b.min_y)
    &&& exists|k: int| 0 <= k < segs.len() && (segs[k].y0 == b.max_y || segs[k].y1 == b.max_y)
}

/// `r` is what resolving `cmds` with `colors` gives: `EmptyDesign` exactly
/// when no segment is drawn, and otherwise the drawn segments, the colors and
/// their bounding box.
pub open spec fn resolves_to(
    cmds: Seq<StitchCommand>,
    colors: Seq<(u8, u8, u8)>,
    r: Result<ResolvedDesign, Error>,
) -> bool {
    match r {
        Err(e) => e == Error::EmptyDesign && resolved_segments(cmds).len() == 0,
        Ok(d) => {
            &&& crate::types::segment_views(d.segments@) == resolved_segments(cmds)
            &&& resolved_segments(cmds).len() > 0
            &&& d.colors@ == colors
            &&& is_bounding_box(resolved_segments(cmds), d.bounds)
        },
    }
}

/// The number of `ColorChange` commands in `cmds`.
pub open spec fn color_change_count(cmds: Seq<StitchCommand>) -> int
    decreases cmds.len(),
{
    if cmds.len() == 0 {
        0
    } else {
        color_change_count(cmds.drop_last()) + if cmds.last() is ColorChange {
            1int
        } else {
            0int
        }
    }
}

/// The number of `Stitch` commands in `cmds`.
pub open spec fn stitch_count(cmds: Seq<StitchCommand>) -> int
    decreases cmds.len(),
{
    if cmds.len() == 0 {
        0
    } else {
        stitch_count(cmds.drop_last()) + if cmds.last() is Stitch {
            1int
        } else {
            0int
        }
    }
}

/// No list has more color changes than commands, and one that ends with
/// `End` has fewer.
pub proof fn lemma_color_change_count_bound(cmds: Seq<StitchCommand>)
    ensures
        0 <= color_change_count(cmds) <= cmds.len(),
        cmds.len() > 0 && cmds.last() is End ==> color_change_count(cmds) < cmds.len(),
    decreases cmds.len(),
{
    if cmds.len() > 0 {
        lemma_color_change_count_bound(cmds.drop_last());
    }
}

/// The number of `ColorChange` commands in `commands`.
pub(crate) fn count_color_changes(commands: &[StitchCommand]) -> (n: usize)
    ensures
        n == color_change_count(commands@),
{
    let mut n: usize = 0;
    let mut i: usize = 0;
    while i < commands.len()
        invariant
            i <= commands@.len(),
            n == color_change_count(commands@.take(i as int)),
        decreases commands@.len() - i,
    {
        proof {
            assert(commands@.take(i + 1).drop_last() =~= commands@.take(i as int));
            lemma_color_change_count_bound(commands@.take(i as int));
        }
        if commands[i] == StitchCommand::ColorChange {
            n = n + 1;
        }
        i = i + 1;
    }
    assert(commands@.take(i as int) =~= commands@);
    n
}

/// Bounds that hold of the pen after any `n` commands.
proof fn lemma_pen_run_bounds(cmds: Seq<StitchCommand>)
    ensures
        -32768 * cmds.len() <= pen_run(cmds).x <= 32768 * cmds.len(),
        -32768 * cmds.len() <= pen_run(cmds).y <= 32768 * cmds.len(),
        0 <= pen_run(cmds).color <= cmds.len(),
    decreases cmds.len(),
{
    if cmds.len() > 0 {
        lemma_pen_run_bounds(cmds.drop_last());
    }
}

/// Once stopped, the pen ignores every further command.
proof fn lemma_stopped_stays(cmds: Seq<StitchCommand>, i: int)
    requires
        0 <= i <= cmds.len(),
        pen_run(cmds.take(i)).stopped,
    ensures
        pen_run(cmds) == pen_run(cmds.take(i)),
    decreases cmds.len() - i,
{
    if i < cmds.len() {
        assert(cmds.take(i + 1).drop_last() =~= cmds.take(i));
        lemma_stopped_stays(cmds, i + 1);
    } else {
        assert(cmds.take(i) =~= cmds);
    }
}

/// Follow `commands` from the origin and collect the drawn segments together
/// with `colors` and the bounding box of the segments.
///
/// Fails with `EmptyDesign` exactly when no segment is drawn.
pub fn resolve(commands: &[StitchCommand], colors: Vec<(u8, u8, u8)>) -> (r: Result<
    ResolvedDesign,
    Error,
>)
    ensures
        resolves_to(commands@, colors@, r),
{
    let mut segments: Vec<StitchSegment> = Vec::new();
    let mut x: i128 = 0;
    let mut y: i128 = 0;
    let mut color_idx: usize = 0;
    let mut pen_down = true;
    let n = commands.len();
    let mut i: usize = 0;
    let ghost cmds = commands@;
    assert(cmds.take(n as int) =~= cmds);

    while i < n
        invariant_except_break
            cmds.take(n as int) == cmds,
            n == cmds.len(),
            cmds == commands@,
            0 <= i <= n,
            !pen_run(cmds.take(i as int)).stopped,
            x == pen_run(cmds.take(i as int)).x,
            y == pen_run(cmds.take(i as int)).y,
            color_idx == pen_run(cmds.take(i as int)).color,
            pen_down == pen_run(cmds.take(i as int)).pen_down,
            crate::types::segment_views(segments@) == pen_run(cmds.take(i as int)).segments,
        ensures
            n == cmds.len(),
            cmds == commands@,
            crate::types::segment_views(segments@) == resolved_segments(cmds),
        decreases n - i,
    {
        let ghost before = pen_run(cmds.take(i as int));
        proof {
            assert(cmds.take(i + 1).drop_last() =~= cmds.take(i as int));
            assert(cmds.take(i + 1).last() == cmds[i as int]);
            lemma_pen_run_bounds(cmds.take(i as int));
            assert(i < n);
            assert(n <= usize::MAX);
        }
        match commands[i] {
            StitchCommand::Stitch { dx, dy } => {
                let nx = x + dx as i128;
                let ny = y + dy as i128;
                if pen_down {
                    segments.push(
                        StitchSegment { x0: x, y0: y, x1: nx, y1: ny, color_index: color_idx },
                    );
                    proof {
                        assert(crate::types::segment_views(segments@) =~= before.segments.push(
                            segments@.last()@,
                        ));
                    }
                }
                x = nx;
                y = ny;
                pen_down = true;
            },
            StitchCommand::Jump { dx, dy } => {
                x = x + dx as i128;
                y = y + dy as i128;
                pen_down = false;
            },
            StitchCommand::Trim => {
                pen_down = false;
            },
            StitchCommand::ColorChange => {
                color_idx = color_idx + 1;
                pen_down = false;
            },
            StitchCommand::End => {
                proof {
                    lemma_stopped_stays(cmds, i + 1);
                }
                break ;
            },
        }
        i = i + 1;
    }

    if segments.len() == 0 {
        return Err(Error::EmptyDesign);
    }
    let bounds = bounding_box(&segments);
    Ok(ResolvedDesign { segments, colors, bounds })
}

/// The bounding box of a non-empty list of segments.
fn bounding_box(segments: &Vec<StitchSegment>) -> (b: BoundingBox)
    requires
        segments.len() > 0,
    ensures
        is_bounding_box(crate::types::segment_views(segments@), b),
{
    let ghost segs = crate::types::segment_views(segments@);
    let first = segments[0];
    let mut min_x = if first.x0 < first.x1 {
        first.x0
    } else {
        first.x1
    };
    let mut max_x = if first.x0 < first.x1 {
        first.x1
    } else {
        first.x0
    };
    let mut min_y = if first.y0 < first.y1 {
        first.y0
    } else {
        first.y1
    };
    let mut max_y = if first.y0 < first.y1 {
        first.y1
    } else {
        first.y0
    };
    let mut j: usize = 1;
    assert(segs.take(1)[0] == first@);
    while j < segments.len()
        invariant
            segs == crate::types::segment_views(segments@),
            1 <= j <= segments.len(),
            is_bounding_box(
                segs.take(j as int),
                BoundingBox { min_x, max_x, min_y, max_y },
            ),
        decreases segments.len() - j,
    {
        let s = segments[j];
        let ghost old_b = BoundingBox { min_x, max_x, min_y, max_y };
        let ghost wk = segs.take(j as int);
        let ghost nk = segs.take(j + 1);
        assert(nk[j as int] == s@);
        assert forall|k: int| 0 <= k < j implies nk[k] == wk[k] by {}
        if s.x0 < min_x {
            min_x = s.x0;
        }
        if s.x1 < min_x {
            min_x = s.x1;
        }
        if s.x0 > max_x {
            max_x = s.x0;
        }
        if s.x1 > max_x {
            max_x = s.x1;
        }
        if s.y0 < min_y {
            min_y = s.y0;
        }
        if s.y1 < min_y {
            min_y = s.y1;
        }
        if s.y0 > max_y {
            max_y = s.y0;
        }
        if s.y1 > max_y {
            max_y = s.y1;
        }
        proof {
            let b = BoundingBox { min_x, max_x, min_y, max_y };
            let kx = choose|k: int|
                0 <= k < wk.len() && (wk[k].x0 == old_b.min_x || wk[k].x1 == old_b.min_x);
            let kX = choose|k: int|
                0 <= k < wk.len() && (wk[k].x0 == old_b.max_x || wk[k].x1 == old_b.max_x);
            let ky = choose|k: int|
                0 <= k < wk.len() && (wk[k].y0 == old_b.min_y || wk[k].y1 == old_b.min_y);
            let kY = choose|k: int|
                0 <= k < wk.len() && (wk[k].y0 == old_b.max_y || wk[k].y1 == old_b.max_y);
            if b.min_x == old_b.min_x {
                assert(nk[kx] == wk[kx]);
            } else {
                assert(nk[j as int].x0 == b.min_x || nk[j as int].x1 == b.min_x);
            }
            if b.max_x == old_b.max_x {
                assert(nk[kX] == wk[kX]);
            } else {
                assert(nk[j as int].x0 == b.max_x || nk[j as int].x1 == b.max_x);
            }
            if b.min_y == old_b.min_y {
                assert(nk[ky] == wk[ky]);
            } else {
                assert(nk[j as int].y0 == b.min_y || nk[j as int].y1 == b.min_y);
            }
            if b.max_y == old_b.max_y {
                assert(nk[kY] == wk[kY]);
            } else {
                assert(nk[j as int].y0 == b.max_y || nk[j as int].y1 == b.max_y);
            }
        }
        j = j + 1;
    }
    assert(segs.take(j as int) =~= segs);
    BoundingBox { min_x, max_x, min_y, max_y }
}

} // verus!
