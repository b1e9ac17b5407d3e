use vstd::prelude::*;

use crate::render::{
    highest_thread, stroke_groups_upto, stroke_plan, thread_color, thread_segments, StrokeGroupView,
};
use crate::types::{StitchCommand, StitchSegment};

verus! {

// ---------------------------------------------------------------------------
// Following commands
// ---------------------------------------------------------------------------

/// Nothing after an `End` is drawn: the segments of `a`, an `End`, then `b`
/// are those of `a` and the `End` alone.
pub proof fn lemma_end_stops(a: Seq<StitchCommand>, b: Seq<StitchCommand>)
    ensures
        crate::resolve::resolved_segments(a.push(StitchCommand::End) + b)
            == crate::resolve::resolved_segments(a.push(StitchCommand::End)),
{
    lemma_run_after_end(a, b);
}

/// After an `End`, the pen no longer changes.
proof fn lemma_run_after_end(a: Seq<StitchCommand>, b: Seq<StitchCommand>)
    ensures
        crate::resolve::pen_run(a.push(StitchCommand::End) + b) == crate::resolve::pen_run(
            a.push(StitchCommand::End),
        ),
        crate::resolve::pen_run(a.push(StitchCommand::End)).stopped,
    decreases b.len(),
{
    let s = a.push(StitchCommand::End);
    assert(s.drop_last() =~= a);
    if b.len() > 0 {
        lemma_run_after_end(a, b.drop_last());
        assert((s + b).drop_last() =~= s + b.drop_last());
    } else {
        assert(s + b =~= s);
    }
}

/// Every drawn segment uses a thread numbered at most the count of color
/// changes, so a list of that count plus one colors covers every segment.
pub proof fn lemma_segment_colors_bounded(cmds: Seq<StitchCommand>)
    ensures
        forall|k: int|
            0 <= k < crate::resolve::resolved_segments(cmds).len() ==> 0
                <= #[trigger] crate::resolve::resolved_segments(cmds)[k].color
                <= crate::resolve::color_change_count(cmds),
    decreases cmds.len(),
{
    lemma_pen_color_bounded(cmds);
}

/// The pen's thread number is at most the count of color changes, and so is
/// the thread of every segment drawn.
proof fn lemma_pen_color_bounded(cmds: Seq<StitchCommand>)
    ensures
        0 <= crate::resolve::pen_run(cmds).color <= crate::resolve::color_change_count(cmds),
        forall|k: int|
            0 <= k < crate::resolve::pen_run(cmds).segments.len() ==> 0
                <= #[trigger] crate::resolve::pen_run(cmds).segments[k].color
                <= crate::resolve::pen_run(cmds).color,
    decreases cmds.len(),
{
    if cmds.len() > 0 {
        lemma_pen_color_bounded(cmds.drop_last());
    }
}

/// Every segment is drawn by a stitch: there are no more segments than
/// `Stitch` commands.
pub proof fn lemma_segments_at_most_stitches(cmds: Seq<StitchCommand>)
    ensures
        crate::resolve::resolved_segments(cmds).len() <= crate::resolve::stitch_count(cmds),
    decreases cmds.len(),
{
    if cmds.len() > 0 {
        lemma_segments_at_most_stitches(cmds.drop_last());
    }
}

/// A jump, a trim or a color change lifts the needle: the stitch right after
/// it moves the pen but draws nothing.
pub proof fn lemma_stitch_after_lift_draws_nothing(
    a: Seq<StitchCommand>,
    lift: StitchCommand,
    dx: i16,
    dy: i16,
)
    requires
        lift is Jump || lift is Trim || lift is ColorChange,
    ensures
        crate::resolve::resolved_segments(a.push(lift).push(StitchCommand::Stitch { dx, dy }))
            == crate::resolve::resolved_segments(a.push(lift)),
{
    assert(a.push(lift).push(StitchCommand::Stitch { dx, dy }).drop_last() =~= a.push(lift));
    assert(a.push(lift).drop_last() =~= a);
}

/// While the needle stays down, stitches join up: after a first stitch, a
/// second one starts its segment where the first one ended.
pub proof fn lemma_stitches_join(a: Seq<StitchCommand>, dx1: i16, dy1: i16, dx2: i16, dy2: i16)
    requires
        !crate::resolve::pen_run(a).stopped,
    ensures
        ({
            let s1 = a.push(StitchCommand::Stitch { dx: dx1, dy: dy1 });
            let s2 = s1.push(StitchCommand::Stitch { dx: dx2, dy: dy2 });
            let segs = crate::resolve::resolved_segments(s2);
            &&& segs.len() >= 1
            &&& segs.last().x1 - segs.last().x0 == dx2
            &&& segs.last().y1 - segs.last().y0 == dy2
            &&& segs.last().x0 == crate::resolve::pen_run(a).x + dx1
            &&& segs.last().y0 == crate::resolve::pen_run(a).y + dy1
        }),
{
    let s1 = a.push(StitchCommand::Stitch { dx: dx1, dy: dy1 });
    let s2 = s1.push(StitchCommand::Stitch { dx: dx2, dy: dy2 });
    assert(s2.drop_last() =~= s1);
    assert(s1.drop_last() =~= a);
    let r1 = crate::resolve::pen_run(s1);
    assert(r1 == crate::resolve::pen_step(
        crate::resolve::pen_run(a),
        StitchCommand::Stitch { dx: dx1, dy: dy1 },
    ));
    assert(r1.pen_down && !r1.stopped);
    assert(crate::resolve::pen_run(s2) == crate::resolve::pen_step(
        r1,
        StitchCommand::Stitch { dx: dx2, dy: dy2 },
    ));
}

/// The default colors given to a DST or EXP design cover every segment.
pub proof fn lemma_default_colors_cover_segments(cmds: Seq<StitchCommand>)
    ensures
        forall|k: int|
            0 <= k < crate::resolve::resolved_segments(cmds).len() ==> #[trigger] crate::resolve::resolved_segments(
                cmds,
            )[k].color < crate::palette::default_color_list(cmds).len(),
{
    lemma_segment_colors_bounded(cmds);
}

// ---------------------------------------------------------------------------
// Decoders
// ---------------------------------------------------------------------------

/// No command but the last is `End`.
pub open spec fn end_only_last(c: Seq<StitchCommand>) -> bool {
    forall|k: int| 0 <= k < c.len() - 1 ==> !(#[trigger] c[k] is End)
}

/// No command is `End`.
pub open spec fn no_end(c: Seq<StitchCommand>) -> bool {
    forall|k: int| 0 <= k < c.len() ==> !(#[trigger] c[k] is End)
}

proof fn lemma_prefix_end_only_last(p: Seq<StitchCommand>, c: Seq<StitchCommand>)
    requires
        no_end(p),
        end_only_last(c),
    ensures
        end_only_last(p + c),
{
    assert forall|k: int| 0 <= k < (p + c).len() - 1 implies !(#[trigger] (p + c)[k] is End) by {
        if k < p.len() {
            assert((p + c)[k] == p[k]);
        } else {
            assert((p + c)[k] == c[k - p.len()]);
        }
    }
}

proof fn lemma_prefix_no_end(p: Seq<StitchCommand>, c: Seq<StitchCommand>)
    requires
        no_end(p),
        no_end(c),
    ensures
        no_end(p + c),
{
    assert forall|k: int| 0 <= k < (p + c).len() implies !(#[trigger] (p + c)[k] is End) by {
        if k < p.len() {
            assert((p + c)[k] == p[k]);
        } else {
            assert((p + c)[k] == c[k - p.len()]);
        }
    }
}

/// A list without `End`, closed by one `End`, has `End` only as its last.
proof fn lemma_push_end(c: Seq<StitchCommand>)
    requires
        no_end(c),
    ensures
        end_only_last(c.push(StitchCommand::End)),
{
    assert forall|k: int| 0 <= k < c.push(StitchCommand::End).len() - 1 implies !(
    #[trigger] c.push(StitchCommand::End)[k] is End) by {
        assert(c.push(StitchCommand::End)[k] == c[k]);
    }
}

proof fn lemma_pec_from_end_only_last(data: Seq<u8>, i: int)
    ensures
        crate::pes::pec::pec_commands_from(data, i) matches Ok(c) ==> end_only_last(c),
    decreases data.len() + 1 - i,
{
    if 0 <= i < data.len() && data[i] != 0xFF {
        if data[i] == 0xFE {
            lemma_pec_from_end_only_last(data, i + 2);
            if let Ok(c) = crate::pes::pec::pec_commands_from(data, i + 2) {
                lemma_prefix_end_only_last(seq![StitchCommand::ColorChange], c);
            }
        } else {
            if let Ok((dx, fx, nx)) = crate::pes::pec::pec_coordinate(data, i) {
                if let Ok((dy, fy, ny)) = crate::pes::pec::pec_coordinate(data, i + nx) {
                    lemma_pec_from_end_only_last(data, i + nx + ny);
                    if let Ok(c) = crate::pes::pec::pec_commands_from(data, i + nx + ny) {
                        lemma_prefix_end_only_last(
                            crate::pes::pec::pec_record_commands(dx, dy, fx | fy),
                            c,
                        );
                    }
                }
            }
        }
    }
}

/// A decoded PEC stitch stream holds `End` at most once, as its last command.
pub proof fn lemma_pec_end_only_last(data: Seq<u8>)
    ensures
        crate::pes::pec::pec_decode(data) matches Ok(c) ==> end_only_last(c),
{
    lemma_pec_from_end_only_last(data, 0);
}

/// The byte `b` with its bits in reverse order.
pub open spec fn reversed_bits(b: u8) -> u8 {
    ((b & 0x01) << 7u8) | ((b & 0x02) << 5u8) | ((b & 0x04) << 3u8) | ((b & 0x08) << 1u8) | ((b
        & 0x10) >> 1u8) | ((b & 0x20) >> 3u8) | ((b & 0x40) >> 5u8) | ((b & 0x80) >> 7u8)
}

proof fn lemma_reversed_bits(b: u8)
    ensures
        (reversed_bits(b) & 0x01 != 0) == (b & 0x80 != 0),
        (reversed_bits(b) & 0x02 != 0) == (b & 0x40 != 0),
        (reversed_bits(b) & 0x04 != 0) == (b & 0x20 != 0),
        (reversed_bits(b) & 0x08 != 0) == (b & 0x10 != 0),
{
    let r = reversed_bits(b);
    assert((r & 0x01 != 0) == (b & 0x80 != 0) && (r & 0x02 != 0) == (b & 0x40 != 0) && (r & 0x04
        != 0) == (b & 0x20 != 0) && (r & 0x08 != 0) == (b & 0x10 != 0)) by (bit_vector)
        requires
            r == ((b & 0x01) << 7u8) | ((b & 0x02) << 5u8) | ((b & 0x04) << 3u8) | ((b & 0x08)
                << 1u8) | ((b & 0x10) >> 1u8) | ((b & 0x20) >> 3u8) | ((b & 0x40) >> 5u8) | ((b
                & 0x80) >> 7u8),
    ;
}

/// The two axes of a Tajima record mirror each other: the Y displacement
/// reads the bits of each byte in the reverse order of the X displacement,
/// with the same weights, and is negated for the screen. Stated where bit 7
/// of the second byte is clear: its `+3` has no counterpart, since the X
/// displacement gives bit 0 of that byte no weight.
pub proof fn lemma_dst_dy_mirrors_dx(b0: u8, b1: u8, b2: u8)
    requires
        b1 & 0x80 == 0,
    ensures
        crate::dst::dst_dy(b0, b1, b2) == -crate::dst::dst_dx(
            reversed_bits(b0),
            reversed_bits(b1),
            reversed_bits(b2),
        ),
{
    lemma_reversed_bits(b0);
    lemma_reversed_bits(b1);
    lemma_reversed_bits(b2);
}

proof fn lemma_dst_records_end_only_last(sd: Seq<u8>, i: int)
    ensures
        end_only_last(crate::dst::dst_records_from(sd, i)),
        !(crate::dst::dst_records_from(sd, i).len() > 0 && crate::dst::dst_records_from(
            sd,
            i,
        ).last() is End) ==> no_end(crate::dst::dst_records_from(sd, i)),
    decreases sd.len() - i,
{
    if 0 <= i && i + 2 < sd.len() && sd[i + 2] & 0x03 != 0x03 {
        lemma_dst_records_end_only_last(sd, i + 3);
        let p = seq![crate::dst::dst_record(sd[i], sd[i + 1], sd[i + 2])];
        let rest = crate::dst::dst_records_from(sd, i + 3);
        lemma_prefix_end_only_last(p, rest);
        if !(rest.len() > 0 && rest.last() is End) {
            lemma_prefix_no_end(p, rest);
        } else {
            assert((p + rest).last() == rest.last());
        }
    }
}

/// A parsed DST file ends with `End` and holds no other.
pub proof fn lemma_dst_end_only_last(data: Seq<u8>)
    ensures
        crate::dst::dst_parse_spec(data) matches Ok(c) ==> c.len() > 0 && c.last() is End
            && end_only_last(c),
{
    if data.len() >= 3 {
        let sd = if crate::dst::dst_has_header(data) {
            data.subrange(512, data.len() as int)
        } else {
            data
        };
        lemma_dst_records_end_only_last(sd, 0);
        let c = crate::dst::dst_records_from(sd, 0);
        if !(c.len() > 0 && c.last() is End) {
            lemma_push_end(c);
        }
    }
}

proof fn lemma_exp_no_end(data: Seq<u8>, i: int)
    ensures
        no_end(crate::exp::exp_commands_from(data, i)),
    decreases data.len() + 2 - i,
{
    if 0 <= i && i + 1 < data.len() {
        lemma_exp_no_end(data, i + 2);
        lemma_exp_no_end(data, i + 4);
        let rest2 = crate::exp::exp_commands_from(data, i + 2);
        let rest4 = crate::exp::exp_commands_from(data, i + 4);
        let b1 = data[i];
        let b2 = data[i + 1];
        let c = crate::exp::exp_commands_from(data, i);
        if b1 == 0x80 && b2 == 0x04 && i + 3 < data.len() {
            lemma_prefix_no_end(seq![c[0]], rest4);
            assert(c == seq![c[0]] + rest4);
        } else if b1 != 0x80 || b2 == 0x01 || b2 == 0x02 || b2 == 0x80 {
            lemma_prefix_no_end(seq![c[0]], rest2);
            assert(c == seq![c[0]] + rest2);
        }
    }
}

/// A parsed EXP file ends with `End` and holds no other.
pub proof fn lemma_exp_end_only_last(data: Seq<u8>)
    ensures
        crate::exp::exp_parse_spec(data) matches Ok(c) ==> c.len() > 0 && c.last() is End
            && end_only_last(c),
{
    lemma_exp_no_end(data, 0);
    lemma_push_end(crate::exp::exp_commands_from(data, 0));
}

proof fn lemma_jef_end_only_last_from(data: Seq<u8>, i: int)
    ensures
        end_only_last(crate::jef::jef_commands_from(data, i)),
        !(crate::jef::jef_commands_from(data, i).len() > 0 && crate::jef::jef_commands_from(
            data,
            i,
        ).last() is End) ==> no_end(crate::jef::jef_commands_from(data, i)),
    decreases data.len() + 2 - i,
{
    if 0 <= i && i + 1 < data.len() {
        lemma_jef_end_only_last_from(data, i + 2);
        lemma_jef_end_only_last_from(data, i + 4);
        let b1 = data[i];
        let b2 = data[i + 1];
        let c = crate::jef::jef_commands_from(data, i);
        let rest = if b1 == 0x80 && b2 == 0x02 {
            crate::jef::jef_commands_from(data, i + 4)
        } else {
            crate::jef::jef_commands_from(data, i + 2)
        };
        let emits = (b1 != 0x80 || b2 == 0x01 || (b2 == 0x02 && i + 3 < data.len()));
        if emits {
            assert(c == seq![c[0]] + rest);
            assert(!(c[0] is End));
            lemma_prefix_end_only_last(seq![c[0]], rest);
            if !(rest.len() > 0 && rest.last() is End) {
                lemma_prefix_no_end(seq![c[0]], rest);
            } else {
                assert(c.last() == rest.last());
            }
        }
    }
}

/// A decoded JEF stitch stream ends with `End` and holds no other.
pub proof fn lemma_jef_end_only_last(data: Seq<u8>)
    ensures
        crate::jef::jef_decode(data) matches Ok(c) ==> c.len() > 0 && c.last() is End
            && end_only_last(c),
{
    lemma_jef_end_only_last_from(data, 0);
    let c = crate::jef::jef_commands_from(data, 0);
    if !(c.len() > 0 && c.last() is End) {
        lemma_push_end(c);
    }
}

proof fn lemma_vp3_decode_no_end(data: Seq<u8>, pos: int, end: int)
    ensures
        crate::vp3::vp3_decode(data, pos, end) matches Some((_, c)) ==> no_end(c),
    decreases data.len() - pos,
{
    if pos < end && data.len() - pos >= 2 {
        if data[pos] >= 0x80 {
            if data.len() - pos >= 4 {
                lemma_vp3_decode_no_end(data, pos + 4, end);
                if let Some((_, c)) = crate::vp3::vp3_decode(data, pos + 4, end) {
                    let j = StitchCommand::Jump {
                        dx: crate::vp3::be_i16(data, pos) as i16,
                        dy: (-crate::vp3::be_i16(data, pos + 2)) as i16,
                    };
                    lemma_prefix_no_end(seq![j], c);
                }
            }
        } else if pos + 1 < end {
            lemma_vp3_decode_no_end(data, pos + 2, end);
            if let Some((_, c)) = crate::vp3::vp3_decode(data, pos + 2, end) {
                let whole = crate::vp3::vp3_decode(data, pos, end)->Some_0.1;
                assert(whole == seq![whole[0]] + c);
                lemma_prefix_no_end(seq![whole[0]], c);
            }
        }
    }
}

proof fn lemma_vp3_section_no_end(data: Seq<u8>, pos: int, cmds: Seq<StitchCommand>)
    requires
        no_end(cmds),
    ensures
        crate::vp3::vp3_section(data, pos, cmds) matches crate::vp3::SectionOutcome::Read(
            _,
            c,
            _,
        ) ==> no_end(c),
{
    let cmds1 = if cmds.len() > 0 {
        cmds.push(StitchCommand::ColorChange)
    } else {
        cmds
    };
    if cmds.len() > 0 {
        lemma_prefix_no_end(cmds, seq![StitchCommand::ColorChange]);
        assert(cmds + seq![StitchCommand::ColorChange] =~= cmds1);
    }
    if data.len() - pos >= 12 {
        if let Ok(p) = crate::vp3::vp3_skip_string(data, pos + 8) {
            if data.len() - p >= 3 {
                let q = p + 3;
                if let Ok(p1) = crate::vp3::vp3_skip_string(data, q) {
                    if let Ok(p2) = crate::vp3::vp3_skip_string(data, p1) {
                        let p3 = if data.len() - p2 >= 18 {
                            p2 + 18
                        } else {
                            p2
                        };
                        if data.len() - p3 >= 4 {
                            let count = crate::vp3::be32(data, p3);
                            lemma_vp3_decode_no_end(data, p3 + 4, p3 + 4 + count);
                            if let Some((_, c)) = crate::vp3::vp3_decode(
                                data,
                                p3 + 4,
                                p3 + 4 + count,
                            ) {
                                lemma_prefix_no_end(cmds1, c);
                            }
                        }
                    }
                }
            }
        }
    }
}

proof fn lemma_vp3_sections_no_end(
    data: Seq<u8>,
    pos: int,
    k: int,
    cmds: Seq<StitchCommand>,
    colors: Seq<(u8, u8, u8)>,
)
    requires
        no_end(cmds),
    ensures
        crate::vp3::vp3_sections(data, pos, k, cmds, colors) matches crate::vp3::Vp3Outcome::Parsed(
            c,
            _,
        ) ==> no_end(c),
    decreases k,
{
    if k > 0 && data.len() - pos >= 4 {
        lemma_vp3_section_no_end(data, pos, cmds);
        if let crate::vp3::SectionOutcome::Read(p, c, color) = crate::vp3::vp3_section(
            data,
            pos,
            cmds,
        ) {
            lemma_vp3_sections_no_end(data, p, k - 1, c, colors.push(color));
        }
    }
}

/// A parsed VP3 file ends with `End` and holds no other.
pub proof fn lemma_vp3_end_only_last(data: Seq<u8>)
    ensures
        crate::vp3::vp3_parse_spec(data) matches crate::vp3::Vp3Outcome::Parsed(c, _) ==> c.len()
            > 0 && c.last() is End && end_only_last(c),
{
    if data.len() >= 20 {
        if let Ok(p) = crate::vp3::vp3_header_end(data, 0) {
            if data.len() - p >= 2 {
                lemma_vp3_sections_no_end(
                    data,
                    p + 2,
                    crate::vp3::be16(data, p),
                    Seq::empty(),
                    Seq::empty(),
                );
                if let crate::vp3::Vp3Outcome::Parsed(c, _) = crate::vp3::vp3_sections(
                    data,
                    p + 2,
                    crate::vp3::be16(data, p),
                    Seq::empty(),
                    Seq::empty(),
                ) {
                    lemma_push_end(c);
                }
            }
        }
    }
}

/// Every movement of `c` lies within `lo..=hi` on both axes.
pub open spec fn moves_within(c: Seq<StitchCommand>, lo: int, hi: int) -> bool {
    forall|k: int|
        0 <= k < c.len() ==> match #[trigger] c[k] {
            StitchCommand::Stitch { dx, dy } => lo <= dx <= hi && lo <= dy <= hi,
            StitchCommand::Jump { dx, dy } => lo <= dx <= hi && lo <= dy <= hi,
            _ => true,
        }
}

pub(crate) proof fn lemma_prefix_moves_within(p: Seq<StitchCommand>, c: Seq<StitchCommand>, lo: int, hi: int)
    requires
        moves_within(p, lo, hi),
        moves_within(c, lo, hi),
    ensures
        moves_within(p + c, lo, hi),
{
    assert forall|k: int| 0 <= k < (p + c).len() implies match #[trigger] (p + c)[k] {
        StitchCommand::Stitch { dx, dy } => lo <= dx <= hi && lo <= dy <= hi,
        StitchCommand::Jump { dx, dy } => lo <= dx <= hi && lo <= dy <= hi,
        _ => true,
    } by {
        if k < p.len() {
            assert((p + c)[k] == p[k]);
        } else {
            assert((p + c)[k] == c[k - p.len()]);
        }
    }
}

proof fn lemma_pec_coordinate_range(data: Seq<u8>, pos: int)
    ensures
        crate::pes::pec::pec_coordinate(data, pos) matches Ok((v, _, _)) ==> -2048 <= v <= 2047,
{
    if 0 <= pos < data.len() && data[pos] >= 0x80 && pos + 1 < data.len() {
        let b1 = data[pos];
        let b2 = data[pos + 1];
        assert(0 <= b1 % 16 < 16);
        assert(0 <= (b1 % 16) * 256 + b2 <= 4095) by (nonlinear_arith)
            requires
                0 <= b1 % 16 < 16,
                0 <= b2 < 256,
        ;
    }
}

proof fn lemma_pec_from_moves(data: Seq<u8>, i: int)
    ensures
        crate::pes::pec::pec_commands_from(data, i) matches Ok(c) ==> moves_within(
            c,
            -2048,
            2047,
        ),
    decreases data.len() + 1 - i,
{
    if 0 <= i < data.len() && data[i] != 0xFF {
        if data[i] == 0xFE {
            lemma_pec_from_moves(data, i + 2);
            if let Ok(c) = crate::pes::pec::pec_commands_from(data, i + 2) {
                lemma_prefix_moves_within(seq![StitchCommand::ColorChange], c, -2048, 2047);
            }
        } else {
            lemma_pec_coordinate_range(data, i);
            if let Ok((dx, fx, nx)) = crate::pes::pec::pec_coordinate(data, i) {
                lemma_pec_coordinate_range(data, i + nx);
                if let Ok((dy, fy, ny)) = crate::pes::pec::pec_coordinate(data, i + nx) {
                    lemma_pec_from_moves(data, i + nx + ny);
                    let rec = crate::pes::pec::pec_record_commands(dx, dy, fx | fy);
                    assert(moves_within(rec, -2048, 2047));
                    if let Ok(c) = crate::pes::pec::pec_commands_from(data, i + nx + ny) {
                        lemma_prefix_moves_within(rec, c, -2048, 2047);
                    }
                }
            }
        }
    }
}

/// PEC movements are 12-bit values: every decoded stitch and jump moves by
/// -2048 to 2047 on each axis.
pub proof fn lemma_pec_moves_are_12_bit(data: Seq<u8>)
    ensures
        crate::pes::pec::pec_decode(data) matches Ok(c) ==> moves_within(c, -2048, 2047),
{
    lemma_pec_from_moves(data, 0);
}

/// Every `Trim` is immediately followed by a `Jump`.
pub open spec fn trim_then_jump(c: Seq<StitchCommand>) -> bool {
    forall|k: int| 0 <= k < c.len() && #[trigger] c[k] is Trim ==> k + 1 < c.len() && c[k + 1] is Jump
}

proof fn lemma_prefix_trim_then_jump(p: Seq<StitchCommand>, c: Seq<StitchCommand>)
    requires
        trim_then_jump(p),
        trim_then_jump(c),
    ensures
        trim_then_jump(p + c),
{
    assert forall|k: int| 0 <= k < (p + c).len() && #[trigger] (p + c)[k] is Trim implies k + 1 < (
    p + c).len() && (p + c)[k + 1] is Jump by {
        if k < p.len() {
            assert((p + c)[k] == p[k]);
            assert((p + c)[k + 1] == p[k + 1]);
        } else {
            assert((p + c)[k] == c[k - p.len()]);
            assert((p + c)[k + 1] == c[k + 1 - p.len()]);
        }
    }
}

proof fn lemma_pec_from_trim_then_jump(data: Seq<u8>, i: int)
    ensures
        crate::pes::pec::pec_commands_from(data, i) matches Ok(c) ==> trim_then_jump(c),
    decreases data.len() + 1 - i,
{
    if 0 <= i < data.len() && data[i] != 0xFF {
        if data[i] == 0xFE {
            lemma_pec_from_trim_then_jump(data, i + 2);
            if let Ok(c) = crate::pes::pec::pec_commands_from(data, i + 2) {
                lemma_prefix_trim_then_jump(seq![StitchCommand::ColorChange], c);
            }
        } else {
            if let Ok((dx, fx, nx)) = crate::pes::pec::pec_coordinate(data, i) {
                if let Ok((dy, fy, ny)) = crate::pes::pec::pec_coordinate(data, i + nx) {
                    lemma_pec_from_trim_then_jump(data, i + nx + ny);
                    let rec = crate::pes::pec::pec_record_commands(dx, dy, fx | fy);
                    assert(trim_then_jump(rec));
                    if let Ok(c) = crate::pes::pec::pec_commands_from(data, i + nx + ny) {
                        lemma_prefix_trim_then_jump(rec, c);
                    }
                }
            }
        }
    }
}

/// In a decoded PEC stitch stream every `Trim` is immediately followed by
/// the `Jump` of the same record.
pub proof fn lemma_pec_trim_then_jump(data: Seq<u8>)
    ensures
        crate::pes::pec::pec_decode(data) matches Ok(c) ==> trim_then_jump(c),
{
    lemma_pec_from_trim_then_jump(data, 0);
}

/// A coordinate that decodes within `data` decodes the same with bytes after it.
proof fn lemma_pec_coordinate_extends(data: Seq<u8>, tail: Seq<u8>, pos: int)
    requires
        0 <= pos,
        crate::pes::pec::pec_coordinate(data, pos) is Ok,
    ensures
        crate::pes::pec::pec_coordinate(data + tail, pos) == crate::pes::pec::pec_coordinate(
            data,
            pos,
        ),
{
    assert((data + tail)[pos] == data[pos]);
    if data[pos] >= 0x80 {
        assert((data + tail)[pos + 1] == data[pos + 1]);
    }
}

proof fn lemma_pec_from_ignores_tail(data: Seq<u8>, tail: Seq<u8>, i: int)
    requires
        0 <= i,
        crate::pes::pec::pec_commands_from(data, i) matches Ok(c) && c.len() > 0
            && c.last() is End,
    ensures
        crate::pes::pec::pec_commands_from(data + tail, i) == crate::pes::pec::pec_commands_from(
            data,
            i,
        ),
    decreases data.len() + 1 - i,
{
    let d2 = data + tail;
    assert(i < data.len());
    assert(d2[i] == data[i]);
    if data[i] == 0xFF {
    } else if data[i] == 0xFE {
        let c = crate::pes::pec::pec_commands_from(data, i)->Ok_0;
        let s = crate::pes::pec::pec_commands_from(data, i + 2)->Ok_0;
        assert(c == seq![StitchCommand::ColorChange] + s);
        if s.len() == 0 {
            assert(c.last() == StitchCommand::ColorChange);
        }
        assert(c.last() == s.last());
        lemma_pec_from_ignores_tail(data, tail, i + 2);
    } else {
        let (dx, fx, nx) = crate::pes::pec::pec_coordinate(data, i)->Ok_0;
        lemma_pec_coordinate_extends(data, tail, i);
        let (dy, fy, ny) = crate::pes::pec::pec_coordinate(data, i + nx)->Ok_0;
        lemma_pec_coordinate_extends(data, tail, i + nx);
        let rec = crate::pes::pec::pec_record_commands(dx, dy, fx | fy);
        let c = crate::pes::pec::pec_commands_from(data, i)->Ok_0;
        let s = crate::pes::pec::pec_commands_from(data, i + nx + ny)->Ok_0;
        assert(c == rec + s);
        if s.len() == 0 {
            assert(c =~= rec);
            assert(!(rec.last() is End));
        }
        assert(c.last() == s.last());
        lemma_pec_from_ignores_tail(data, tail, i + nx + ny);
    }
}

/// Decoding stops at a `0xFF` met where a command begins: when the commands
/// of `data` end with `End`, any bytes appended after `data` change nothing.
pub proof fn lemma_pec_tail_ignored(data: Seq<u8>, tail: Seq<u8>)
    requires
        crate::pes::pec::pec_decode(data) matches Ok(c) && c.last() is End,
    ensures
        crate::pes::pec::pec_decode(data + tail) == crate::pes::pec::pec_decode(data),
{
    lemma_pec_from_ignores_tail(data, tail, 0);
}

/// Whether decoding the PEC stream `data` from `i` meets a `0xFF` byte where
/// a command begins (before running out of bytes or failing).
pub open spec fn pec_meets_ff(data: Seq<u8>, i: int) -> bool
    decreases data.len() + 1 - i,
{
    if i < 0 || i >= data.len() {
        false
    } else if data[i] == 0xFF {
        true
    } else if data[i] == 0xFE {
        pec_meets_ff(data, i + 2)
    } else {
        match crate::pes::pec::pec_coordinate(data, i) {
            Err(_) => false,
            Ok((_, _, nx)) => match crate::pes::pec::pec_coordinate(data, i + nx) {
                Err(_) => false,
                Ok((_, _, ny)) => pec_meets_ff(data, i + nx + ny),
            },
        }
    }
}

proof fn lemma_pec_from_end_iff_ff(data: Seq<u8>, i: int)
    ensures
        crate::pes::pec::pec_commands_from(data, i) matches Ok(c) ==> ((c.len() > 0
            && c.last() is End) <==> pec_meets_ff(data, i)),
    decreases data.len() + 1 - i,
{
    if 0 <= i < data.len() && data[i] != 0xFF {
        if data[i] == 0xFE {
            lemma_pec_from_end_iff_ff(data, i + 2);
            if let Ok(s) = crate::pes::pec::pec_commands_from(data, i + 2) {
                let c = seq![StitchCommand::ColorChange] + s;
                if s.len() > 0 {
                    assert(c.last() == s.last());
                } else {
                    assert(c.last() == StitchCommand::ColorChange);
                }
            }
        } else {
            if let Ok((dx, fx, nx)) = crate::pes::pec::pec_coordinate(data, i) {
                if let Ok((dy, fy, ny)) = crate::pes::pec::pec_coordinate(data, i + nx) {
                    lemma_pec_from_end_iff_ff(data, i + nx + ny);
                    let rec = crate::pes::pec::pec_record_commands(dx, dy, fx | fy);
                    if let Ok(s) = crate::pes::pec::pec_commands_from(data, i + nx + ny) {
                        let c = rec + s;
                        if s.len() > 0 {
                            assert(c.last() == s.last());
                        } else {
                            assert(c =~= rec);
                            assert(!(rec.last() is End));
                        }
                    }
                }
            }
        }
    }
}

/// What a decoded PEC stitch stream looks like: `End` comes at most once and
/// only last; the list ends with `End` exactly when decoding meets a `0xFF`
/// where a command begins; every `Trim` is immediately followed by a `Jump`;
/// and once a `0xFF` is met, bytes appended after the stream change nothing.
pub proof fn lemma_pec_decode_shape(data: Seq<u8>, tail: Seq<u8>)
    ensures
        crate::pes::pec::pec_decode(data) matches Ok(c) ==> {
            &&& end_only_last(c)
            &&& (c.last() is End <==> pec_meets_ff(data, 0))
            &&& trim_then_jump(c)
            &&& pec_meets_ff(data, 0) ==> crate::pes::pec::pec_decode(data + tail)
                == crate::pes::pec::pec_decode(data)
        },
{
    lemma_pec_end_only_last(data);
    lemma_pec_trim_then_jump(data);
    lemma_pec_from_end_iff_ff(data, 0);
    if let Ok(c) = crate::pes::pec::pec_decode(data) {
        if pec_meets_ff(data, 0) {
            lemma_pec_tail_ignored(data, tail);
        }
    }
}

/// Parsing a PES file (`pes::parse`) is `parse_header` on the file, then an
/// `InvalidPecOffset` check, then `parse_pec_header` on the bytes from the PEC
/// offset, then `decode_stitches` on the bytes from where that PEC header says
/// the stream starts (532); the first error met is the result, unchanged.
/// Stated over the specifications that those functions' contracts use.
pub proof fn lemma_pes_parse_composes(data: Seq<u8>)
    ensures
        crate::pes::pes_parse_spec(data) == match crate::pes::header::pes_header_spec(data) {
            Err(e) => Err(e),
            Ok(h) => if h.pec_offset >= data.len() {
                Err(crate::error::Error::InvalidPecOffset(h.pec_offset, data.len() as usize))
            } else {
                let pec = data.skip(h.pec_offset as int);
                match crate::pes::pec::pec_header_spec(pec) {
                    Err(e) => Err(e),
                    Ok((ph, start)) => match crate::pes::pec::pec_decode(pec.skip(start)) {
                        Err(e) => Err(e),
                        Ok(c) => Ok(
                            crate::pes::PesDesignView { header: h, pec_header: ph, commands: c },
                        ),
                    },
                }
            },
        },
{
    if let Ok(h) = crate::pes::header::pes_header_spec(data) {
        if h.pec_offset < data.len() {
            let pec = data.skip(h.pec_offset as int);
            assert(pec =~= data.subrange(h.pec_offset as int, data.len() as int));
            if let Ok((ph, start)) = crate::pes::pec::pec_header_spec(pec) {
                assert(pec.skip(start) =~= pec.subrange(start, pec.len() as int));
            }
        }
    }
}

// ---------------------------------------------------------------------------
// Drawing order
// ---------------------------------------------------------------------------

proof fn lemma_thread_segments_members(segs: Seq<StitchSegment>, ci: int, n: int)
    requires
        n <= segs.len(),
        segs.len() <= usize::MAX,
    ensures
        forall|j: int|
            0 <= j < n && segs[j].color_index == ci ==> thread_segments(segs, ci, n).contains(
                j as usize,
            ),
        forall|x: usize|
            thread_segments(segs, ci, n).contains(x) ==> x < n && segs[x as int].color_index
                == ci,
    decreases n,
{
    if n > 0 {
        lemma_thread_segments_members(segs, ci, n - 1);
        let prev = thread_segments(segs, ci, n - 1);
        if segs[n - 1].color_index == ci {
            assert(prev.push((n - 1) as usize)[prev.len() as int] == (n - 1) as usize);
            assert forall|j: int| 0 <= j < n && segs[j].color_index == ci implies thread_segments(
                segs,
                ci,
                n,
            ).contains(j as usize) by {
                if j < n - 1 {
                    let k = choose|k: int| 0 <= k < prev.len() && prev[k] == j as usize;
                    assert(prev.push((n - 1) as usize)[k] == j as usize);
                }
            }
            assert forall|x: usize| thread_segments(segs, ci, n).contains(x) implies x < n
                && segs[x as int].color_index == ci by {
                let cur = prev.push((n - 1) as usize);
                assert(cur == thread_segments(segs, ci, n));
                let k = choose|k: int| 0 <= k < cur.len() && #[trigger] cur[k] == x;
                if k < prev.len() {
                    assert(prev[k] == x);
                    assert(prev.contains(x));
                } else {
                    assert(x == (n - 1) as usize);
                }
            }
        }
    }
}

proof fn lemma_highest_thread_above(segs: Seq<StitchSegment>, n: int)
    requires
        n <= segs.len(),
    ensures
        forall|j: int| 0 <= j < n ==> segs[j].color_index <= highest_thread(segs, n),
    decreases n,
{
    if n > 0 {
        lemma_highest_thread_above(segs, n - 1);
    }
}

proof fn lemma_groups_upto(segs: Seq<StitchSegment>, colors: Seq<(u8, u8, u8)>, k: int)
    ensures
        forall|ci: int|
            0 <= ci < k && thread_segments(segs, ci, segs.len() as int).len() > 0
                ==> stroke_groups_upto(segs, colors, k).contains(
                StrokeGroupView {
                    color_index: ci,
                    color: thread_color(colors, ci),
                    segments: thread_segments(segs, ci, segs.len() as int),
                },
            ),
        forall|g: StrokeGroupView|
            stroke_groups_upto(segs, colors, k).contains(g) ==> 0 <= g.color_index < k
                && g.color == thread_color(colors, g.color_index) && g.segments
                == thread_segments(segs, g.color_index, segs.len() as int),
        forall|a: int, b: int|
            0 <= a < b < stroke_groups_upto(segs, colors, k).len() ==> stroke_groups_upto(
                segs,
                colors,
                k,
            )[a].color_index < stroke_groups_upto(segs, colors, k)[b].color_index,
    decreases k,
{
    if k > 0 {
        lemma_groups_upto(segs, colors, k - 1);
        let prev = stroke_groups_upto(segs, colors, k - 1);
        let idx = thread_segments(segs, k - 1, segs.len() as int);
        if idx.len() > 0 {
            let g = StrokeGroupView {
                color_index: k - 1,
                color: thread_color(colors, k - 1),
                segments: idx,
            };
            let cur = prev.push(g);
            assert(cur[prev.len() as int] == g);
            assert forall|ci: int|
                0 <= ci < k && thread_segments(segs, ci, segs.len() as int).len()
                    > 0 implies cur.contains(
                StrokeGroupView {
                    color_index: ci,
                    color: thread_color(colors, ci),
                    segments: thread_segments(segs, ci, segs.len() as int),
                },
            ) by {
                if ci < k - 1 {
                    let h = StrokeGroupView {
                        color_index: ci,
                        color: thread_color(colors, ci),
                        segments: thread_segments(segs, ci, segs.len() as int),
                    };
                    let t = choose|t: int| 0 <= t < prev.len() && prev[t] == h;
                    assert(cur[t] == h);
                }
            }
            assert forall|h: StrokeGroupView| cur.contains(h) implies 0 <= h.color_index < k
                && h.color == thread_color(colors, h.color_index) && h.segments == thread_segments(
                segs,
                h.color_index,
                segs.len() as int,
            ) by {
                let t = choose|t: int| 0 <= t < cur.len() && cur[t] == h;
                if t < prev.len() {
                    assert(prev[t] == h);
                    assert(prev.contains(h));
                } else {
                    assert(h == g);
                }
            }
            assert forall|a: int, b: int| 0 <= a < b < cur.len() implies cur[a].color_index
                < cur[b].color_index by {
                assert(cur[a] == prev[a]);
                assert(prev.contains(prev[a]));
                if b < prev.len() {
                    assert(cur[b] == prev[b]);
                }
            }
        }
    }
}

/// Drawing covers every segment exactly once, in its thread's color: each
/// segment lies in the group of its thread, which is in the plan; a group
/// holds only segments of its thread and has that thread's color (black past
/// the end of the color list); and no thread has two groups, since the plan
/// goes up by thread number.
pub proof fn lemma_stroke_plan_draws_each_segment_once(
    segs: Seq<StitchSegment>,
    colors: Seq<(u8, u8, u8)>,
)
    requires
        segs.len() <= usize::MAX,
    ensures
        forall|j: int|
            0 <= j < segs.len() ==> stroke_plan(segs, colors).contains(
                StrokeGroupView {
                    color_index: segs[j].color_index as int,
                    color: thread_color(colors, segs[j].color_index as int),
                    segments: thread_segments(segs, segs[j].color_index as int, segs.len() as int),
                },
            ) && thread_segments(segs, segs[j].color_index as int, segs.len() as int).contains(
                j as usize,
            ),
        forall|g: StrokeGroupView, x: usize|
            stroke_plan(segs, colors).contains(g) && g.segments.contains(x) ==> x < segs.len()
                && segs[x as int].color_index == g.color_index && g.color == thread_color(
                colors,
                g.color_index,
            ),
        forall|a: int, b: int|
            0 <= a < b < stroke_plan(segs, colors).len() ==> stroke_plan(segs, colors)[a].color_index
                < stroke_plan(segs, colors)[b].color_index,
{
    let n = segs.len() as int;
    let k = highest_thread(segs, n) + 1;
    lemma_highest_thread_above(segs, n);
    lemma_groups_upto(segs, colors, k);
    assert forall|j: int| 0 <= j < n implies stroke_plan(segs, colors).contains(
        StrokeGroupView {
            color_index: segs[j].color_index as int,
            color: thread_color(colors, segs[j].color_index as int),
            segments: thread_segments(segs, segs[j].color_index as int, n),
        },
    ) && thread_segments(segs, segs[j].color_index as int, n).contains(j as usize) by {
        lemma_thread_segments_members(segs, segs[j].color_index as int, n);
    }
    assert forall|g: StrokeGroupView, x: usize|
        stroke_plan(segs, colors).contains(g) && g.segments.contains(x) implies x < n
            && segs[x as int].color_index == g.color_index && g.color == thread_color(
            colors,
            g.color_index,
        ) by {
        lemma_thread_segments_members(segs, g.color_index, n);
    }
}

// ---------------------------------------------------------------------------
// Across functions
// ---------------------------------------------------------------------------

/// Content detection and the PES header agree: a file of at least 12 bytes
/// is detected as PES exactly when its header parses.
pub proof fn lemma_detect_agrees_with_header(data: Seq<u8>)
    requires
        data.len() >= 12,
    ensures
        crate::format::format_of_bytes(data) == Some(crate::format::Format::Pes)
            <==> crate::pes::header::pes_header_spec(data) is Ok,
{
    assert(crate::format::pes_magic_bytes() == crate::pes::header::pes_magic());
    if crate::pes::header::pes_header_spec(data) is Ok {
        assert(data.subrange(0, 4) == crate::format::pes_magic_bytes());
    }
    if crate::format::format_of_bytes(data) == Some(crate::format::Format::Pes) {
        assert(crate::format::starts_with(data, crate::format::pes_magic_bytes()));
    }
}

/// The PES version does not change how a file is read: two files that differ
/// only in the version bytes, with the PEC section after the 12-byte header,
/// parse to the same PEC header and commands, or to the same error.
pub proof fn lemma_version_does_not_matter(a: Seq<u8>, b: Seq<u8>)
    requires
        a.len() == b.len(),
        a.len() >= 12,
        forall|i: int| 0 <= i < a.len() && !(4 <= i < 8) ==> a[i] == b[i],
        crate::bytes::le_u32_at(a, 8) >= 12,
    ensures
        match (crate::pes::pes_parse_spec(a), crate::pes::pes_parse_spec(b)) {
            (Ok(da), Ok(db)) => {
                &&& da.header.pec_offset == db.header.pec_offset
                &&& da.pec_header == db.pec_header
                &&& da.commands == db.commands
            },
            (Err(ea), Err(eb)) => ea == eb,
            _ => false,
        },
{
    assert(a.subrange(0, 4) =~= b.subrange(0, 4));
    let off = crate::bytes::le_u32_at(a, 8);
    assert(off == crate::bytes::le_u32_at(b, 8));
    if off < a.len() {
        assert(a.subrange(off, a.len() as int) =~= b.subrange(off, b.len() as int));
    }
}

/// A parsed PES file has at least one thread, and its color table holds as
/// many entries as its color count says; the resolved colors are one per entry.
pub proof fn lemma_pes_color_table(data: Seq<u8>)
    requires
        !crate::pes::pes_color_count_overflows(data),
    ensures
        crate::pes::pes_parse_spec(data) matches Ok(d) ==> {
            &&& d.pec_header.color_count > 0
            &&& d.pec_header.color_indices.len() == d.pec_header.color_count
            &&& crate::pes::pec_thread_colors(d.pec_header.color_indices).len()
                == d.pec_header.color_count
        },
{
    if let Ok(h) = crate::pes::header::pes_header_spec(data) {
        if h.pec_offset < data.len() {
            let pec = data.subrange(h.pec_offset as int, data.len() as int);
            if pec.len() > 532 {
                assert(pec[48] < 255);
            }
        }
    }
}

/// Straight alpha leaves fully opaque pixels as they are.
pub proof fn lemma_opaque_pixels_unchanged(src: Seq<u8>)
    requires
        src.len() % 4 == 0,
        forall|k: int| 0 <= k < src.len() && k % 4 == 3 ==> #[trigger] src[k] == 255,
    ensures
        crate::render::straight_alpha(src) == src,
    decreases src.len(),
{
    if src.len() >= 4 {
        let rest = src.skip(4);
        assert forall|k: int| 0 <= k < rest.len() && k % 4 == 3 implies #[trigger] rest[k] == 255 by {
            assert(rest[k] == src[k + 4]);
            assert((k + 4) % 4 == 3);
        }
        assert(src[3] == 255);
        lemma_opaque_pixels_unchanged(rest);
        assert(seq![src[0], src[1], src[2], src[3]] + rest =~= src);
    } else {
        assert(src =~= Seq::<u8>::empty());
    }
}

} // verus!
