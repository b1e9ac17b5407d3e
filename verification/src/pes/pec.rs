use vstd::prelude::*;
use vstd::utf8::{decode_utf8, valid_utf8};

use crate::error::Error;
use crate::types::StitchCommand;

verus! {

/// The PEC section header: the design label and its thread table.
pub struct PecHeader {
    pub label: String,
    pub color_count: u8,
    pub color_indices: Vec<u8>,
}

/// The mathematical value of a PEC header.
pub struct PecHeaderView {
    pub label: Seq<char>,
    pub color_count: u8,
    pub color_indices: Seq<u8>,
}

impl View for PecHeader {
    type V = PecHeaderView;

    open spec fn view(&self) -> PecHeaderView {
        PecHeaderView {
            label: self.label@,
            color_count: self.color_count,
            color_indices: self.color_indices@,
        }
    }
}

/// Where the stitch stream starts, counted from the start of the PEC section.
pub open spec fn pec_stitch_offset() -> int {
    532
}

/// `std::str::from_utf8`, with the error dropped.
///
/// Claimed: the bytes are accepted exactly when they are valid UTF-8, and
/// the text is then their decoding.
#[verifier::external_body]
fn utf8_str(bytes: &[u8]) -> (r: Option<&str>)
    ensures
        r is Some <==> valid_utf8(bytes@),
        r matches Some(s) ==> s@ == decode_utf8(bytes@),
{
    std::str::from_utf8(bytes).ok()
}

/// `str::trim`, copied into a `String`.
///
/// Claimed: the result is the text without leading and trailing characters
/// of the Unicode `White_Space` property.
#[verifier::external_body]
fn trim_to_string(s: &str) -> (r: String)
    ensures
        r@ == crate::text::trimmed(s@),
{
    s.trim().to_string()
}

/// The label stored in the 16 raw label bytes: their UTF-8 text, trimmed, or
/// the empty text when they are not valid UTF-8.
pub open spec fn pec_label(raw: Seq<u8>) -> Seq<char> {
    crate::text::trimmed(
        if valid_utf8(raw) {
            decode_utf8(raw)
        } else {
            Seq::empty()
        },
    )
}

/// Whether reading the PEC header of `pec` adds past `u8::MAX` when it counts
/// the colors (the stored count byte is 255).
pub open spec fn pec_color_count_overflows(pec: Seq<u8>) -> bool {
    pec.len() >= 532 && pec[48] == 255
}

/// The PEC header of `pec` and the offset of its stitch stream, or the error.
pub open spec fn pec_header_spec(pec: Seq<u8>) -> Result<(PecHeaderView, int), Error> {
    if pec.len() < 532 {
        Err(Error::TooShort { expected: 532, actual: pec.len() as usize })
    } else if pec.len() <= 532 {
        Err(Error::NoStitchData)
    } else {
        let count = pec[48] + 1;
        Ok(
            (
                PecHeaderView {
                    label: pec_label(pec.subrange(3, 19)),
                    color_count: count as u8,
                    color_indices: pec.subrange(49, 49 + count),
                },
                pec_stitch_offset(),
            ),
        )
    }
}

/// Parse the PEC header starting at the PEC section offset.
/// Returns the header and the byte offset (relative to `pec_data`) where the
/// stitch data begins.
pub fn parse_pec_header(pec_data: &[u8]) -> (r: Result<(PecHeader, usize), Error>)
    requires
        !pec_color_count_overflows(pec_data@),
    ensures
        match r {
            Ok((h, off)) => pec_header_spec(pec_data@) == Ok::<(PecHeaderView, int), Error>(
                (h@, off as int),
            ),
            Err(e) => pec_header_spec(pec_data@) == Err::<(PecHeaderView, int), Error>(e),
        },
{
    if pec_data.len() < 532 {
        return Err(Error::TooShort { expected: 532, actual: pec_data.len() });
    }
    let label_raw = &pec_data[3..19];
    let text: &str = match utf8_str(label_raw) {
        Some(s) => s,
        None => {
            proof {
                reveal_strlit("");
                assert(""@ =~= Seq::<char>::empty());
            }
            ""
        },
    };
    let label = trim_to_string(text);

    let color_count = pec_data[48] + 1;
    let end = 49 + color_count as usize;
    let color_indices = vstd::slice::slice_to_vec(&pec_data[49..end]);

    let stitch_data_offset: usize = 532;

    if pec_data.len() <= stitch_data_offset {
        return Err(Error::NoStitchData);
    }
    Ok((PecHeader { label, color_count, color_indices }, stitch_data_offset))
}

/// The signed value of a 7-bit PEC coordinate byte.
pub open spec fn pec_short_value(b: u8) -> int {
    if b > 0x3F {
        b - 0x80
    } else {
        b as int
    }
}

/// The signed value of a 12-bit PEC coordinate held in two bytes.
pub open spec fn pec_long_value(b1: u8, b2: u8) -> int {
    let raw = (b1 % 16) * 256 + b2;
    if raw > 0x7FF {
        raw - 0x1000
    } else {
        raw
    }
}

/// One coordinate of the PEC stitch stream at `pos`: its value, its flag bits
/// and the number of bytes it takes; or the error when the data ends.
///
/// A byte with the high bit set starts a 12-bit value in two bytes and
/// carries the flags `b & 0x70`; otherwise the byte is a 7-bit value.
pub open spec fn pec_coordinate(data: Seq<u8>, pos: int) -> Result<(i16, u8, usize), Error> {
    if pos >= data.len() {
        Err(Error::TooShort { expected: (pos + 1) as usize, actual: data.len() as usize })
    } else if data[pos] >= 0x80 {
        if pos + 1 >= data.len() {
            Err(Error::TooShort { expected: (pos + 2) as usize, actual: data.len() as usize })
        } else {
            Ok((pec_long_value(data[pos], data[pos + 1]) as i16, data[pos] & 0x70, 2))
        }
    } else {
        Ok((pec_short_value(data[pos]) as i16, 0, 1))
    }
}

/// `prefix` put in front of a successful result; an error passes through.
pub open spec fn prepend_commands(
    prefix: Seq<StitchCommand>,
    r: Result<Seq<StitchCommand>, Error>,
) -> Result<Seq<StitchCommand>, Error> {
    match r {
        Ok(s) => Ok(prefix + s),
        Err(e) => Err(e),
    }
}

/// The commands that one stitch record with both coordinates decoded yields:
/// flag `0x20` is a trim followed by a jump, flag `0x10` a jump, otherwise a
/// stitch.
pub open spec fn pec_record_commands(dx: i16, dy: i16, flags: u8) -> Seq<StitchCommand> {
    if flags & 0x20 != 0 {
        seq![StitchCommand::Trim, StitchCommand::Jump { dx, dy }]
    } else if flags & 0x10 != 0 {
        seq![StitchCommand::Jump { dx, dy }]
    } else {
        seq![StitchCommand::Stitch { dx, dy }]
    }
}

/// The commands decoded from the PEC stitch stream `data` from position `i`
/// on: `0xFF` ends the stream with `End`, `0xFE` is a color change that
/// takes two bytes, anything else is a record of two coordinates.
pub open spec fn pec_commands_from(data: Seq<u8>, i: int) -> Result<Seq<StitchCommand>, Error>
    decreases data.len() + 1 - i,
{
    if i < 0 || i >= data.len() {
        Ok(Seq::empty())
    } else if data[i] == 0xFF {
        Ok(seq![StitchCommand::End])
    } else if data[i] == 0xFE {
        prepend_commands(seq![StitchCommand::ColorChange], pec_commands_from(data, i + 2))
    } else {
        match pec_coordinate(data, i) {
            Err(e) => Err(e),
            Ok((dx, fx, nx)) => match pec_coordinate(data, i + nx) {
                Err(e) => Err(e),
                Ok((dy, fy, ny)) => prepend_commands(
                    pec_record_commands(dx, dy, fx | fy),
                    pec_commands_from(data, i + nx + ny),
                ),
            },
        }
    }
}

/// The commands of a whole PEC stitch stream; a stream that yields none is
/// `NoStitchData`.
pub open spec fn pec_decode(data: Seq<u8>) -> Result<Seq<StitchCommand>, Error> {
    match pec_commands_from(data, 0) {
        Ok(c) => if c.len() == 0 {
            Err(Error::NoStitchData)
        } else {
            Ok(c)
        },
        Err(e) => Err(e),
    }
}

/// Decode PEC stitch byte stream into a list of commands.
pub fn decode_stitches(data: &[u8]) -> (r: Result<Vec<StitchCommand>, Error>)
    requires
        data@.len() <= isize::MAX,
    ensures
        match r {
            Ok(c) => pec_decode(data@) == Ok::<Seq<StitchCommand>, Error>(c@),
            Err(e) => pec_decode(data@) == Err::<Seq<StitchCommand>, Error>(e),
        },
{
    let mut commands: Vec<StitchCommand> = Vec::new();
    let mut i: usize = 0;
    let n = data.len();

    while i < n
        invariant_except_break
            n == data@.len(),
            n <= isize::MAX,
            i <= n + 1,
            pec_commands_from(data@, 0) == prepend_commands(
                commands@,
                pec_commands_from(data@, i as int),
            ),
        ensures
            pec_commands_from(data@, 0) == Ok::<Seq<StitchCommand>, Error>(commands@),
        decreases n + 1 - i,
    {
        let b1 = data[i];
        if b1 == 0xFF {
            let ghost before = commands@;
            commands.push(StitchCommand::End);
            assert(commands@ =~= before + seq![StitchCommand::End]);
            break ;
        }
        if b1 == 0xFE {
            let ghost before = commands@;
            commands.push(StitchCommand::ColorChange);
            proof {
                assert(commands@ =~= before + seq![StitchCommand::ColorChange]);
                lemma_prepend_twice(
                    before,
                    seq![StitchCommand::ColorChange],
                    pec_commands_from(data@, i + 2),
                );
            }
            i = i + 2;
            continue ;
        }
        let (dx, dx_flags, bytes_dx) = match decode_coordinate(data, i) {
            Ok(v) => v,
            Err(e) => {
                return Err(e);
            },
        };
        let j = i + bytes_dx;
        let (dy, dy_flags, bytes_dy) = match decode_coordinate(data, j) {
            Ok(v) => v,
            Err(e) => {
                return Err(e);
            },
        };
        let ghost before = commands@;
        push_record(&mut commands, dx, dy, dx_flags | dy_flags);
        proof {
            lemma_prepend_twice(
                before,
                pec_record_commands(dx, dy, dx_flags | dy_flags),
                pec_commands_from(data@, (j + bytes_dy) as int),
            );
        }
        i = j + bytes_dy;
    }
    if commands.len() == 0 {
        return Err(Error::NoStitchData);
    }
    Ok(commands)
}

/// Putting `a` in front of `b` in front of a result is putting `a + b` in front.
proof fn lemma_prepend_twice(
    a: Seq<StitchCommand>,
    b: Seq<StitchCommand>,
    r: Result<Seq<StitchCommand>, Error>,
)
    ensures
        prepend_commands(a, prepend_commands(b, r)) == prepend_commands(a + b, r),
{
    if r is Ok {
        assert(a + (b + r->Ok_0) =~= (a + b) + r->Ok_0);
    }
}

/// Append the commands of one decoded stitch record.
fn push_record(commands: &mut Vec<StitchCommand>, dx: i16, dy: i16, flags: u8)
    ensures
        final(commands)@ == old(commands)@ + pec_record_commands(dx, dy, flags),
{
    let ghost before = commands@;
    if flags & 0x20 != 0 {
        commands.push(StitchCommand::Trim);
        commands.push(StitchCommand::Jump { dx, dy });
    } else if flags & 0x10 != 0 {
        commands.push(StitchCommand::Jump { dx, dy });
    } else {
        commands.push(StitchCommand::Stitch { dx, dy });
    }
    assert(commands@ =~= before + pec_record_commands(dx, dy, flags));
}

/// Decode a single coordinate (dx or dy) from the byte stream.
/// Returns (value, flags, bytes_consumed).
fn decode_coordinate(data: &[u8], pos: usize) -> (r: Result<(i16, u8, usize), Error>)
    requires
        pos < usize::MAX,
        pos + 1 == usize::MAX && pos < data@.len() ==> data@[pos as int] < 0x80,
    ensures
        r == pec_coordinate(data@, pos as int),
        r matches Ok((v, f, w)) ==> pos + w <= data@.len() && ((w == 1 && f == 0 && -64 <= v
            <= 63) || (w == 2 && f & 0x8F == 0 && -2048 <= v <= 2047)),
{
    if pos >= data.len() {
        return Err(Error::TooShort { expected: pos + 1, actual: data.len() });
    }
    let b = data[pos];
    if b >= 0x80 {
        if pos + 1 >= data.len() {
            return Err(Error::TooShort { expected: pos + 2, actual: data.len() });
        }
        let b2 = data[pos + 1];
        let flags = b & 0x70;
        assert(flags & 0x8F == 0) by (bit_vector)
            requires
                flags == b & 0x70,
        ;
        assert(0 <= (b % 16) * 256 + b2 <= 4095) by (nonlinear_arith)
            requires
                0 <= b % 16 < 16,
                0 <= b2 < 256,
        ;
        let raw: u16 = (b % 16) as u16 * 256 + b2 as u16;
        let value: i16 = if raw > 0x7FF {
            raw as i16 - 0x1000
        } else {
            raw as i16
        };
        Ok((value, flags, 2))
    } else {
        let value: i16 = if b > 0x3F {
            b as i16 - 0x80
        } else {
            b as i16
        };
        Ok((value, 0, 1))
    }
}

} // verus!
