use vstd::prelude::*;

use crate::laws::{lemma_prefix_moves_within, moves_within};
use crate::resolve::{color_change_count, pen_run, resolved_segments};
use crate::types::{SegmentView, StitchCommand};

verus! {

// ---------------------------------------------------------------------------
// Signed bytes
// ---------------------------------------------------------------------------

/// `v` is byte `b` read as a two's-complement `i8`: the one value in
/// `-128..=127` that agrees with `b` modulo 256.
pub open spec fn reads_signed(v: int, b: u8) -> bool {
    -128 <= v <= 127 && (v - b) % 256 == 0
}

proof fn lemma_signed_byte_value(b: u8)
    ensures
        reads_signed(crate::bytes::signed_byte_value(b), b),
{
}

/// Every stitch of `c` moves within `lo..=hi` on both axes.
pub open spec fn stitches_within(c: Seq<StitchCommand>, lo: int, hi: int) -> bool {
    forall|k: int|
        0 <= k < c.len() ==> (#[trigger] c[k] matches StitchCommand::Stitch { dx, dy } ==> lo
            <= dx <= hi && lo <= dy <= hi)
}

proof fn lemma_prefix_stitches_within(
    p: Seq<StitchCommand>,
    c: Seq<StitchCommand>,
    lo: int,
    hi: int,
)
    requires
        stitches_within(p, lo, hi),
        stitches_within(c, lo, hi),
    ensures
        stitches_within(p + c, lo, hi),
{
    assert forall|k: int| 0 <= k < (p + c).len() implies (#[trigger] (p + c)[k] matches StitchCommand::Stitch { dx, dy } ==> lo
        <= dx <= hi && lo <= dy <= hi) by {
        if k < p.len() {
            assert((p + c)[k] == p[k]);
        } else {
            assert((p + c)[k] == c[k - p.len()]);
        }
    }
}

// ---------------------------------------------------------------------------
// EXP
// ---------------------------------------------------------------------------

/// One EXP record at `i`: a plain pair is a stitch of the two bytes read as
/// signed `i8` (`dx`, `dy`); the escape `0x80 0x04` and the next pair are a
/// jump of that pair read the same way; `0x80 0x01` and `0x80 0x02` are a
/// color change, `0x80 0x80` a trim.
pub proof fn lemma_exp_record_moves(data: Seq<u8>, i: int)
    requires
        0 <= i,
        i + 1 < data.len(),
    ensures
        data[i] != 0x80 ==> (crate::exp::exp_commands_from(data, i)[0] matches StitchCommand::Stitch {
            dx,
            dy,
        } && reads_signed(dx as int, data[i]) && reads_signed(dy as int, data[i + 1])),
        data[i] == 0x80 && data[i + 1] == 0x04 && i + 3 < data.len() ==> (crate::exp::exp_commands_from(
            data,
            i,
        )[0] matches StitchCommand::Jump { dx, dy } && reads_signed(dx as int, data[i + 2])
            && reads_signed(dy as int, data[i + 3])),
        data[i] == 0x80 && (data[i + 1] == 0x01 || data[i + 1] == 0x02)
            ==> crate::exp::exp_commands_from(data, i)[0] == StitchCommand::ColorChange,
        data[i] == 0x80 && data[i + 1] == 0x80 ==> crate::exp::exp_commands_from(data, i)[0]
            == StitchCommand::Trim,
{
    lemma_signed_byte_value(data[i]);
    lemma_signed_byte_value(data[i + 1]);
    if i + 3 < data.len() {
        lemma_signed_byte_value(data[i + 2]);
        lemma_signed_byte_value(data[i + 3]);
    }
}

proof fn lemma_exp_from_moves(data: Seq<u8>, i: int)
    ensures
        moves_within(crate::exp::exp_commands_from(data, i), -128, 127),
    decreases data.len() + 2 - i,
{
    if 0 <= i && i + 1 < data.len() {
        lemma_exp_from_moves(data, i + 2);
        lemma_exp_from_moves(data, i + 4);
        lemma_exp_record_moves(data, i);
        let b1 = data[i];
        let b2 = data[i + 1];
        let c = crate::exp::exp_commands_from(data, i);
        if b1 == 0x80 && b2 == 0x04 && i + 3 < data.len() {
            assert(c == seq![c[0]] + crate::exp::exp_commands_from(data, i + 4));
            lemma_prefix_moves_within(
                seq![c[0]],
                crate::exp::exp_commands_from(data, i + 4),
                -128,
                127,
            );
        } else if b1 != 0x80 || b2 == 0x01 || b2 == 0x02 || b2 == 0x80 {
            assert(c == seq![c[0]] + crate::exp::exp_commands_from(data, i + 2));
            lemma_prefix_moves_within(
                seq![c[0]],
                crate::exp::exp_commands_from(data, i + 2),
                -128,
                127,
            );
        }
    }
}

/// Every stitch and jump of a parsed EXP file moves by signed bytes: within
/// `-128..=127` on each axis.
pub proof fn lemma_exp_moves_are_signed_bytes(data: Seq<u8>)
    ensures
        crate::exp::exp_parse_spec(data) matches Ok(c) ==> moves_within(c, -128, 127),
{
    let c = crate::exp::exp_commands_from(data, 0);
    lemma_exp_from_moves(data, 0);
    lemma_prefix_moves_within(c, seq![StitchCommand::End], -128, 127);
    assert(c.push(StitchCommand::End) =~= c + seq![StitchCommand::End]);
}

// ---------------------------------------------------------------------------
// JEF
// ---------------------------------------------------------------------------

/// One JEF record at `i`: a plain pair is a stitch whose `dx` is the first
/// byte and whose `-dy` is the second, both read as signed `i8`; the escape
/// `0x80 0x02` and the next pair are a jump of that pair read the same way;
/// `0x80 0x01` is a color change, and `0x80 0x10` ends the stream.
pub proof fn lemma_jef_record_moves(data: Seq<u8>, i: int)
    requires
        0 <= i,
        i + 1 < data.len(),
    ensures
        data[i] != 0x80 ==> (crate::jef::jef_commands_from(data, i)[0] matches StitchCommand::Stitch {
            dx,
            dy,
        } && reads_signed(dx as int, data[i]) && reads_signed(-dy, data[i + 1])),
        data[i] == 0x80 && data[i + 1] == 0x02 && i + 3 < data.len() ==> (crate::jef::jef_commands_from(
            data,
            i,
        )[0] matches StitchCommand::Jump { dx, dy } && reads_signed(dx as int, data[i + 2])
            && reads_signed(-dy, data[i + 3])),
        data[i] == 0x80 && data[i + 1] == 0x01 ==> crate::jef::jef_commands_from(data, i)[0]
            == StitchCommand::ColorChange,
        data[i] == 0x80 && data[i + 1] == 0x10 ==> crate::jef::jef_commands_from(data, i)
            == seq![StitchCommand::End],
{
    lemma_signed_byte_value(data[i]);
    lemma_signed_byte_value(data[i + 1]);
    if i + 3 < data.len() {
        lemma_signed_byte_value(data[i + 2]);
        lemma_signed_byte_value(data[i + 3]);
    }
}

proof fn lemma_jef_from_moves(data: Seq<u8>, i: int)
    ensures
        moves_within(crate::jef::jef_commands_from(data, i), -128, 128),
    decreases data.len() + 2 - i,
{
    if 0 <= i && i + 1 < data.len() {
        lemma_jef_from_moves(data, i + 2);
        lemma_jef_from_moves(data, i + 4);
        lemma_jef_record_moves(data, i);
        let b1 = data[i];
        let b2 = data[i + 1];
        let c = crate::jef::jef_commands_from(data, i);
        if b1 == 0x80 && b2 == 0x02 && i + 3 < data.len() {
            assert(c == seq![c[0]] + crate::jef::jef_commands_from(data, i + 4));
            lemma_prefix_moves_within(
                seq![c[0]],
                crate::jef::jef_commands_from(data, i + 4),
                -128,
                128,
            );
        } else if b1 != 0x80 || b2 == 0x01 {
            assert(c == seq![c[0]] + crate::jef::jef_commands_from(data, i + 2));
            lemma_prefix_moves_within(
                seq![c[0]],
                crate::jef::jef_commands_from(data, i + 2),
                -128,
                128,
            );
        }
    }
}

/// Every stitch and jump of a decoded JEF stitch stream moves by signed bytes:
/// within `-128..=128` on each axis (the Y byte is negated).
pub proof fn lemma_jef_moves_are_signed_bytes(data: Seq<u8>)
    ensures
        crate::jef::jef_decode(data) matches Ok(c) ==> moves_within(c, -128, 128),
{
    let c = crate::jef::jef_commands_from(data, 0);
    lemma_jef_from_moves(data, 0);
    lemma_prefix_moves_within(c, seq![StitchCommand::End], -128, 128);
    assert(c.push(StitchCommand::End) =~= c + seq![StitchCommand::End]);
}

// ---------------------------------------------------------------------------
// VP3
// ---------------------------------------------------------------------------

/// One small VP3 record at `pos` (first byte below `0x80`, both bytes before
/// `end`): two zero bytes are a trim; otherwise a stitch whose `dx` is the
/// first byte and whose `-dy` is the second, both read as signed `i8`.
pub proof fn lemma_vp3_small_record(data: Seq<u8>, pos: int, end: int)
    requires
        0 <= pos,
        pos + 1 < end,
        pos + 1 < data.len(),
        data[pos] < 0x80,
        crate::vp3::vp3_decode(data, pos, end) is Some,
    ensures
        crate::vp3::vp3_decode(data, pos, end)->Some_0.1.len() > 0,
        data[pos] == 0 && data[pos + 1] == 0 ==> crate::vp3::vp3_decode(data, pos, end)->Some_0.1[0]
            == StitchCommand::Trim,
        !(data[pos] == 0 && data[pos + 1] == 0) ==> (crate::vp3::vp3_decode(data, pos, end)->Some_0.1[0] matches StitchCommand::Stitch {
            dx,
            dy,
        } && reads_signed(dx as int, data[pos]) && reads_signed(-dy, data[pos + 1])),
{
    lemma_signed_byte_value(data[pos]);
    lemma_signed_byte_value(data[pos + 1]);
}

/// One large VP3 record at `pos` (first byte `0x80` or above, four bytes
/// left): a jump whose `dx` is the first two bytes and whose `-dy` is the
/// next two, each read as a big-endian two's-complement `i16`.
pub proof fn lemma_vp3_large_record(data: Seq<u8>, pos: int, end: int)
    requires
        0 <= pos < end,
        pos + 3 < data.len(),
        data[pos] >= 0x80,
        crate::vp3::vp3_decode(data, pos, end) is Some,
    ensures
        crate::vp3::vp3_decode(data, pos, end)->Some_0.1.len() > 0,
        crate::vp3::vp3_decode(data, pos, end)->Some_0.1[0] matches StitchCommand::Jump { dx, dy }
            && (dx - (data[pos] * 256 + data[pos + 1])) % 65536 == 0 && (-dy - (data[pos + 2] * 256
            + data[pos + 3])) % 65536 == 0,
{
}

/// The stitches that VP3 decoding yields come from small records: each moves
/// within `-128..=128` on each axis.
pub proof fn lemma_vp3_stitches_are_signed_bytes(data: Seq<u8>, pos: int, end: int)
    ensures
        crate::vp3::vp3_decode(data, pos, end) matches Some((_, c)) ==> stitches_within(
            c,
            -128,
            128,
        ),
    decreases data.len() - pos,
{
    if pos < end && data.len() - pos >= 2 {
        if data[pos] >= 0x80 {
            if data.len() - pos >= 4 {
                lemma_vp3_stitches_are_signed_bytes(data, pos + 4, end);
                if let Some((_, c)) = crate::vp3::vp3_decode(data, pos + 4, end) {
                    if let Some((_, whole)) = crate::vp3::vp3_decode(data, pos, end) {
                        assert(whole == seq![whole[0]] + c);
                        lemma_prefix_stitches_within(seq![whole[0]], c, -128, 128);
                    }
                }
            }
        } else if pos + 1 < end {
            lemma_vp3_stitches_are_signed_bytes(data, pos + 2, end);
            lemma_signed_byte_value(data[pos]);
            lemma_signed_byte_value(data[pos + 1]);
            if let Some((_, c)) = crate::vp3::vp3_decode(data, pos + 2, end) {
                let whole = crate::vp3::vp3_decode(data, pos, end)->Some_0.1;
                assert(whole == seq![whole[0]] + c);
                lemma_prefix_stitches_within(seq![whole[0]], c, -128, 128);
            }
        }
    }
}

// ---------------------------------------------------------------------------
// PEC
// ---------------------------------------------------------------------------

/// A PEC coordinate is a 7-bit two's-complement value in one byte below
/// `0x80`, with no flags; or a 12-bit two's-complement value whose high four
/// bits are the low four bits of a first byte of `0x80` or above and whose
/// low eight bits are the next byte, with the flags `0x70` of the first byte.
pub proof fn lemma_pec_coordinate_values(data: Seq<u8>, pos: int)
    requires
        0 <= pos,
    ensures
        crate::pes::pec::pec_coordinate(data, pos) matches Ok((v, f, n)) ==> pos < data.len() && ((
        data[pos] < 0x80 && n == 1 && f == 0 && -64 <= v <= 63 && (v - data[pos]) % 128 == 0) || (
        data[pos] >= 0x80 && pos + 1 < data.len() && n == 2 && f == data[pos] & 0x70 && -2048 <= v
            <= 2047 && (v - (data[pos] % 16) * 256 - data[pos + 1]) % 4096 == 0)),
{
    if 0 <= pos < data.len() && data[pos] >= 0x80 && pos + 1 < data.len() {
        let b1 = data[pos];
        let b2 = data[pos + 1];
        assert(0 <= (b1 % 16) * 256 + b2 <= 4095) by (nonlinear_arith)
            requires
                0 <= b1 % 16 < 16,
                0 <= b2 < 256,
        ;
    }
}

/// A PEC stitch record at `i` (first byte neither `0xFF` nor `0xFE`) is two
/// coordinates, `dx` then `dy`, whose flag bits together decide the command:
/// `0x20` is a trim followed by a jump, else `0x10` a jump, else a stitch,
/// each moving by `(dx, dy)`; the stream goes on after the record.
pub proof fn lemma_pec_record_commands(data: Seq<u8>, i: int)
    requires
        0 <= i < data.len(),
        data[i] != 0xFF,
        data[i] != 0xFE,
        crate::pes::pec::pec_commands_from(data, i) is Ok,
    ensures
        crate::pes::pec::pec_coordinate(data, i) matches Ok((dx, fx, nx))
            && crate::pes::pec::pec_coordinate(data, i + nx) matches Ok((dy, fy, ny)) && {
            let c = crate::pes::pec::pec_commands_from(data, i)->Ok_0;
            let rest = crate::pes::pec::pec_commands_from(data, i + nx + ny);
            &&& rest is Ok
            &&& (fx | fy) & 0x20 != 0 ==> c == seq![
                StitchCommand::Trim,
                StitchCommand::Jump { dx, dy },
            ] + rest->Ok_0
            &&& (fx | fy) & 0x20 == 0 && (fx | fy) & 0x10 != 0 ==> c == seq![
                StitchCommand::Jump { dx, dy },
            ] + rest->Ok_0
            &&& (fx | fy) & 0x30 == 0 ==> c == seq![StitchCommand::Stitch { dx, dy }] + rest->Ok_0
        },
{
    if let Ok((dx, fx, nx)) = crate::pes::pec::pec_coordinate(data, i) {
        if let Ok((dy, fy, ny)) = crate::pes::pec::pec_coordinate(data, i + nx) {
            let f = fx | fy;
            assert(f & 0x30 == 0 <==> (f & 0x20 == 0 && f & 0x10 == 0)) by (bit_vector);
        }
    }
}

// ---------------------------------------------------------------------------
// Headers
// ---------------------------------------------------------------------------

/// Four bytes read little-endian: the first is the lowest, and the value fits
/// in 32 bits.
pub proof fn lemma_le_u32_is_little_endian(b0: u8, b1: u8, b2: u8, b3: u8)
    ensures
        crate::bytes::le_u32(b0, b1, b2, b3) == b0 + 256 * (b1 + 256 * (b2 + 256 * b3)),
        0 <= crate::bytes::le_u32(b0, b1, b2, b3) < 0x1_0000_0000,
{
}

/// A PES header parses exactly when the file has 12 bytes and opens with
/// `#PES`; its version is bytes 4..8 and its PEC offset the little-endian
/// number in bytes 8..12.
pub proof fn lemma_pes_header_fields(data: Seq<u8>)
    ensures
        crate::pes::header::pes_header_spec(data) is Ok <==> data.len() >= 12 && data[0] == 0x23
            && data[1] == 0x50 && data[2] == 0x45 && data[3] == 0x53,
        crate::pes::header::pes_header_spec(data) matches Ok(h) ==> h.version == [
            data[4],
            data[5],
            data[6],
            data[7],
        ] && h.pec_offset == data[8] + 256 * (data[9] + 256 * (data[10] + 256 * data[11])),
{
    if data.len() >= 12 {
        if data[0] == 0x23 && data[1] == 0x50 && data[2] == 0x45 && data[3] == 0x53 {
            assert(data.subrange(0, 4) =~= crate::pes::header::pes_magic());
        } else if data.subrange(0, 4) == crate::pes::header::pes_magic() {
            assert(data.subrange(0, 4)[0] == data[0]);
            assert(data.subrange(0, 4)[1] == data[1]);
            assert(data.subrange(0, 4)[2] == data[2]);
            assert(data.subrange(0, 4)[3] == data[3]);
        }
    }
}

// ---------------------------------------------------------------------------
// DST
// ---------------------------------------------------------------------------

/// What setting bit `m` of `b` (when clear) leaves: `m` set, every other bit
/// as it was.
proof fn lemma_set_bit(b: u8, m: u8)
    requires
        m == 1 || m == 2 || m == 4 || m == 8 || m == 16 || m == 32 || m == 64 || m == 128,
    ensures
        (b | m) & m != 0,
        m != 0x01 ==> ((b | m) & 0x01 != 0) == (b & 0x01 != 0),
        m != 0x02 ==> ((b | m) & 0x02 != 0) == (b & 0x02 != 0),
        m != 0x04 ==> ((b | m) & 0x04 != 0) == (b & 0x04 != 0),
        m != 0x08 ==> ((b | m) & 0x08 != 0) == (b & 0x08 != 0),
        m != 0x10 ==> ((b | m) & 0x10 != 0) == (b & 0x10 != 0),
        m != 0x20 ==> ((b | m) & 0x20 != 0) == (b & 0x20 != 0),
        m != 0x40 ==> ((b | m) & 0x40 != 0) == (b & 0x40 != 0),
        m != 0x80 ==> ((b | m) & 0x80 != 0) == (b & 0x80 != 0),
{
    assert((b | m) & m != 0 && (m != 0x01 ==> ((b | m) & 0x01 != 0) == (b & 0x01 != 0)) && (m
        != 0x02 ==> ((b | m) & 0x02 != 0) == (b & 0x02 != 0)) && (m != 0x04 ==> ((b | m) & 0x04
        != 0) == (b & 0x04 != 0)) && (m != 0x08 ==> ((b | m) & 0x08 != 0) == (b & 0x08 != 0))
        && (m != 0x10 ==> ((b | m) & 0x10 != 0) == (b & 0x10 != 0)) && (m != 0x20 ==> ((b | m)
        & 0x20 != 0) == (b & 0x20 != 0)) && (m != 0x40 ==> ((b | m) & 0x40 != 0) == (b & 0x40
        != 0)) && (m != 0x80 ==> ((b | m) & 0x80 != 0) == (b & 0x80 != 0))) by (bit_vector)
        requires
            m == 1 || m == 2 || m == 4 || m == 8 || m == 16 || m == 32 || m == 64 || m == 128,
    ;
}

/// A Tajima record with none of the movement bits set does not move.
pub proof fn lemma_dst_no_bits_no_move()
    ensures
        crate::dst::dst_dx(0, 0, 0) == 0,
        crate::dst::dst_dy(0, 0, 0) == 0,
{
    let z: u8 = 0;
    assert(z & 0x01 == 0 && z & 0x02 == 0 && z & 0x04 == 0 && z & 0x08 == 0 && z & 0x10 == 0 && z
        & 0x20 == 0 && z & 0x40 == 0 && z & 0x80 == 0) by (bit_vector)
        requires
            z == 0,
    ;
}

/// The weight of each X bit of a Tajima record: setting it (where it was
/// clear) moves X by +1 / -1 (byte 0, bits `0x01` / `0x02`), +9 / -9 (byte 0,
/// `0x04` / `0x08`), -3 (byte 1, `0x02`), +27 / -27 (byte 1, `0x04` /
/// `0x08`), +81 / -81 (byte 2, `0x04` / `0x08`). Bit `0x01` of byte 1 moves
/// nothing. So each plus bit cancels its minus bit.
pub proof fn lemma_dst_dx_bit_weights(b0: u8, b1: u8, b2: u8)
    ensures
        b0 & 0x01 == 0 ==> crate::dst::dst_dx(b0 | 0x01, b1, b2) == crate::dst::dst_dx(b0, b1, b2)
            + 1,
        b0 & 0x02 == 0 ==> crate::dst::dst_dx(b0 | 0x02, b1, b2) == crate::dst::dst_dx(b0, b1, b2)
            - 1,
        b0 & 0x04 == 0 ==> crate::dst::dst_dx(b0 | 0x04, b1, b2) == crate::dst::dst_dx(b0, b1, b2)
            + 9,
        b0 & 0x08 == 0 ==> crate::dst::dst_dx(b0 | 0x08, b1, b2) == crate::dst::dst_dx(b0, b1, b2)
            - 9,
        b1 & 0x01 == 0 ==> crate::dst::dst_dx(b0, b1 | 0x01, b2) == crate::dst::dst_dx(b0, b1, b2),
        b1 & 0x02 == 0 ==> crate::dst::dst_dx(b0, b1 | 0x02, b2) == crate::dst::dst_dx(b0, b1, b2)
            - 3,
        b1 & 0x04 == 0 ==> crate::dst::dst_dx(b0, b1 | 0x04, b2) == crate::dst::dst_dx(b0, b1, b2)
            + 27,
        b1 & 0x08 == 0 ==> crate::dst::dst_dx(b0, b1 | 0x08, b2) == crate::dst::dst_dx(b0, b1, b2)
            - 27,
        b2 & 0x04 == 0 ==> crate::dst::dst_dx(b0, b1, b2 | 0x04) == crate::dst::dst_dx(b0, b1, b2)
            + 81,
        b2 & 0x08 == 0 ==> crate::dst::dst_dx(b0, b1, b2 | 0x08) == crate::dst::dst_dx(b0, b1, b2)
            - 81,
{
    lemma_set_bit(b0, 0x01);
    lemma_set_bit(b0, 0x02);
    lemma_set_bit(b0, 0x04);
    lemma_set_bit(b0, 0x08);
    lemma_set_bit(b1, 0x01);
    lemma_set_bit(b1, 0x02);
    lemma_set_bit(b1, 0x04);
    lemma_set_bit(b1, 0x08);
    lemma_set_bit(b2, 0x04);
    lemma_set_bit(b2, 0x08);
}

/// The weight of each Y bit of a Tajima record, on screen (the file counts
/// upwards, the screen downwards): setting it (where it was clear) moves Y by
/// -1 / +1 (byte 0, bits `0x80` / `0x40`), -9 / +9 (byte 0, `0x20` / `0x10`),
/// -3 / +3 (byte 1, `0x80` / `0x40`), -27 / +27 (byte 1, `0x20` / `0x10`),
/// -81 / +81 (byte 2, `0x20` / `0x10`). So each plus bit cancels its minus
/// bit.
pub proof fn lemma_dst_dy_bit_weights(b0: u8, b1: u8, b2: u8)
    ensures
        b0 & 0x80 == 0 ==> crate::dst::dst_dy(b0 | 0x80, b1, b2) == crate::dst::dst_dy(b0, b1, b2)
            - 1,
        b0 & 0x40 == 0 ==> crate::dst::dst_dy(b0 | 0x40, b1, b2) == crate::dst::dst_dy(b0, b1, b2)
            + 1,
        b0 & 0x20 == 0 ==> crate::dst::dst_dy(b0 | 0x20, b1, b2) == crate::dst::dst_dy(b0, b1, b2)
            - 9,
        b0 & 0x10 == 0 ==> crate::dst::dst_dy(b0 | 0x10, b1, b2) == crate::dst::dst_dy(b0, b1, b2)
            + 9,
        b1 & 0x80 == 0 ==> crate::dst::dst_dy(b0, b1 | 0x80, b2) == crate::dst::dst_dy(b0, b1, b2)
            - 3,
        b1 & 0x40 == 0 ==> crate::dst::dst_dy(b0, b1 | 0x40, b2) == crate::dst::dst_dy(b0, b1, b2)
            + 3,
        b1 & 0x20 == 0 ==> crate::dst::dst_dy(b0, b1 | 0x20, b2) == crate::dst::dst_dy(b0, b1, b2)
            - 27,
        b1 & 0x10 == 0 ==> crate::dst::dst_dy(b0, b1 | 0x10, b2) == crate::dst::dst_dy(b0, b1, b2)
            + 27,
        b2 & 0x20 == 0 ==> crate::dst::dst_dy(b0, b1, b2 | 0x20) == crate::dst::dst_dy(b0, b1, b2)
            - 81,
        b2 & 0x10 == 0 ==> crate::dst::dst_dy(b0, b1, b2 | 0x10) == crate::dst::dst_dy(b0, b1, b2)
            + 81,
{
    lemma_set_bit(b0, 0x80);
    lemma_set_bit(b0, 0x40);
    lemma_set_bit(b0, 0x20);
    lemma_set_bit(b0, 0x10);
    lemma_set_bit(b1, 0x80);
    lemma_set_bit(b1, 0x40);
    lemma_set_bit(b1, 0x20);
    lemma_set_bit(b1, 0x10);
    lemma_set_bit(b2, 0x20);
    lemma_set_bit(b2, 0x10);
}

/// The kind of a Tajima record is set by its third byte: both low bits set
/// end the stream; otherwise bit `0x80` is a color change, else bit `0x40` a
/// jump, else a stitch, and jumps and stitches move by the record's X and Y
/// displacements.
pub proof fn lemma_dst_record_kinds(sd: Seq<u8>, i: int)
    requires
        0 <= i,
        i + 2 < sd.len(),
    ensures
        sd[i + 2] & 0x03 == 0x03 ==> crate::dst::dst_records_from(sd, i) == seq![
            StitchCommand::End,
        ],
        sd[i + 2] & 0x03 != 0x03 && sd[i + 2] & 0x80 != 0 ==> crate::dst::dst_records_from(
            sd,
            i,
        )[0] == StitchCommand::ColorChange,
        sd[i + 2] & 0x03 != 0x03 && sd[i + 2] & 0x80 == 0 && sd[i + 2] & 0x40 != 0
            ==> crate::dst::dst_records_from(sd, i)[0] == (StitchCommand::Jump {
            dx: crate::dst::dst_dx(sd[i], sd[i + 1], sd[i + 2]) as i16,
            dy: crate::dst::dst_dy(sd[i], sd[i + 1], sd[i + 2]) as i16,
        }),
        sd[i + 2] & 0x03 != 0x03 && sd[i + 2] & 0xC0 == 0 ==> crate::dst::dst_records_from(sd, i)[0]
            == (StitchCommand::Stitch {
            dx: crate::dst::dst_dx(sd[i], sd[i + 1], sd[i + 2]) as i16,
            dy: crate::dst::dst_dy(sd[i], sd[i + 1], sd[i + 2]) as i16,
        }),
{
    let b = sd[i + 2];
    assert(b & 0xC0 == 0 <==> (b & 0x80 == 0 && b & 0x40 == 0)) by (bit_vector);
}

// ---------------------------------------------------------------------------
// Straight alpha
// ---------------------------------------------------------------------------

/// A premultiplied channel `c` under alpha `a` (not zero) turns back into the
/// largest straight value `v` with `v * a <= c * 255`, held at 255.
pub proof fn lemma_straight_channel_divides(c: u8, a: u8)
    requires
        a > 0,
    ensures
        crate::render::straight_channel(c, a) * a <= c * 255,
        crate::render::straight_channel(c, a) == 255 || c * 255 < (crate::render::straight_channel(
            c,
            a,
        ) + 1) * a,
{
    let n: int = c * 255;
    let d: int = a as int;
    let q: int = n / d;
    assert(q * d <= n < (q + 1) * d) by (nonlinear_arith)
        requires
            d > 0,
            n >= 0,
            q == n / d,
    ;
    if q > 255 {
        assert(255 * d <= q * d) by (nonlinear_arith)
            requires
                q > 255,
                d > 0,
        ;
    }
}

// ---------------------------------------------------------------------------
// Following commands
// ---------------------------------------------------------------------------

/// The sum of the X movements of the stitches and jumps of `cmds`.
pub open spec fn moved_x(cmds: Seq<StitchCommand>) -> int
    decreases cmds.len(),
{
    if cmds.len() == 0 {
        0
    } else {
        moved_x(cmds.drop_last()) + match cmds.last() {
            StitchCommand::Stitch { dx, .. } => dx as int,
            StitchCommand::Jump { dx, .. } => dx as int,
            _ => 0,
        }
    }
}

/// The sum of the Y movements of the stitches and jumps of `cmds`.
pub open spec fn moved_y(cmds: Seq<StitchCommand>) -> int
    decreases cmds.len(),
{
    if cmds.len() == 0 {
        0
    } else {
        moved_y(cmds.drop_last()) + match cmds.last() {
            StitchCommand::Stitch { dy, .. } => dy as int,
            StitchCommand::Jump { dy, .. } => dy as int,
            _ => 0,
        }
    }
}

/// Until an `End` stops it, the pen stands at the sum of every stitch and
/// jump movement so far, each taken in full on both axes, and sews with the
/// thread numbered by the color changes so far.
pub proof fn lemma_pen_is_sum_of_moves(cmds: Seq<StitchCommand>)
    ensures
        !pen_run(cmds).stopped ==> {
            &&& pen_run(cmds).x == moved_x(cmds)
            &&& pen_run(cmds).y == moved_y(cmds)
            &&& pen_run(cmds).color == color_change_count(cmds)
        },
    decreases cmds.len(),
{
    if cmds.len() > 0 {
        lemma_pen_is_sum_of_moves(cmds.drop_last());
    }
}

/// A jump moves the pen by its full `(dx, dy)` without drawing: after a jump
/// and two stitches, the first stitch only moves the pen and the second draws
/// one segment from the point reached, jump and first stitch included.
pub proof fn lemma_jump_then_stitches(
    a: Seq<StitchCommand>,
    dx: i16,
    dy: i16,
    s1x: i16,
    s1y: i16,
    s2x: i16,
    s2y: i16,
)
    requires
        !pen_run(a).stopped,
    ensures
        resolved_segments(
            a.push(StitchCommand::Jump { dx, dy }).push(
                StitchCommand::Stitch { dx: s1x, dy: s1y },
            ).push(StitchCommand::Stitch { dx: s2x, dy: s2y }),
        ) == resolved_segments(a).push(
            SegmentView {
                x0: pen_run(a).x + dx + s1x,
                y0: pen_run(a).y + dy + s1y,
                x1: pen_run(a).x + dx + s1x + s2x,
                y1: pen_run(a).y + dy + s1y + s2y,
                color: pen_run(a).color,
            },
        ),
{
    let a1 = a.push(StitchCommand::Jump { dx, dy });
    let a2 = a1.push(StitchCommand::Stitch { dx: s1x, dy: s1y });
    let a3 = a2.push(StitchCommand::Stitch { dx: s2x, dy: s2y });
    assert(a1.drop_last() =~= a);
    assert(a2.drop_last() =~= a1);
    assert(a3.drop_last() =~= a2);
    let p0 = pen_run(a);
    let p1 = pen_run(a1);
    let p2 = pen_run(a2);
    assert(p1.x == p0.x + dx && p1.y == p0.y + dy && !p1.pen_down && !p1.stopped);
    assert(p1.segments == p0.segments && p1.color == p0.color);
    assert(p2.x == p1.x + s1x && p2.y == p1.y + s1y && p2.pen_down && !p2.stopped);
    assert(p2.segments == p1.segments && p2.color == p1.color);
    assert(pen_run(a3).segments == p2.segments.push(
        SegmentView { x0: p2.x, y0: p2.y, x1: p2.x + s2x, y1: p2.y + s2y, color: p2.color },
    ));
}

} // verus!
