use rustitch::resolve::resolve;
use rustitch::{Error, StitchCommand};

#[test]
fn resolve_positions_and_bounds() {
    let cmds = [
        StitchCommand::Stitch { dx: 3, dy: -4 },
        StitchCommand::Jump { dx: 10, dy: 0 },
        StitchCommand::Stitch { dx: 1, dy: 1 },
        StitchCommand::Stitch { dx: -20, dy: 2 },
        StitchCommand::ColorChange,
        StitchCommand::Stitch { dx: 1, dy: 1 },
        StitchCommand::Stitch { dx: 0, dy: 5 },
        StitchCommand::End,
        StitchCommand::Stitch { dx: 100, dy: 100 },
    ];
    let d = resolve(&cmds, vec![(1, 2, 3)]).unwrap();
    let segs: Vec<(i128, i128, i128, i128, usize)> =
        d.segments.iter().map(|s| (s.x0, s.y0, s.x1, s.y1, s.color_index)).collect();
    assert_eq!(
        segs,
        vec![(0, 0, 3, -4, 0), (14, -3, -6, -1, 0), (-5, 0, -5, 5, 1)]
    );
    assert_eq!(d.colors, vec![(1, 2, 3)]);
    assert_eq!(
        (d.bounds.min_x, d.bounds.max_x, d.bounds.min_y, d.bounds.max_y),
        (-6, 14, -4, 5)
    );
}

#[test]
fn resolve_nothing_drawn() {
    let cmds = [StitchCommand::Trim, StitchCommand::Stitch { dx: 1, dy: 1 }, StitchCommand::End];
    assert!(matches!(resolve(&cmds, vec![]).err().unwrap(), Error::EmptyDesign));
    assert!(matches!(resolve(&[], vec![]).err().unwrap(), Error::EmptyDesign));
}

#[test]
fn resolve_end_stops_everything() {
    let a = [StitchCommand::Stitch { dx: 1, dy: 0 }, StitchCommand::End];
    let b = [
        StitchCommand::Stitch { dx: 1, dy: 0 },
        StitchCommand::End,
        StitchCommand::Stitch { dx: 5, dy: 5 },
        StitchCommand::ColorChange,
    ];
    let ra = resolve(&a, vec![]).unwrap();
    let rb = resolve(&b, vec![]).unwrap();
    assert_eq!(ra.segments, rb.segments);
    assert_eq!(ra.bounds, rb.bounds);
}

#[test]
fn stitches_join_and_lifts_draw_nothing() {
    let cmds = [
        StitchCommand::Stitch { dx: 2, dy: 0 },
        StitchCommand::Stitch { dx: 0, dy: 3 },
        StitchCommand::Trim,
        StitchCommand::Stitch { dx: 1, dy: 1 },
        StitchCommand::Stitch { dx: 1, dy: 1 },
    ];
    let d = resolve(&cmds, vec![]).unwrap();
    // The second stitch starts where the first ended; the stitch after the
    // trim draws nothing.
    assert_eq!(d.segments.len(), 3);
    assert_eq!((d.segments[1].x0, d.segments[1].y0), (d.segments[0].x1, d.segments[0].y1));
    assert_eq!((d.segments[2].x0, d.segments[2].y0), (3, 4));
    // No more segments than stitches, every thread number within the color changes.
    assert!(d.segments.iter().all(|s| s.color_index == 0));
}
