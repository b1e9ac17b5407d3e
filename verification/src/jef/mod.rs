pub mod palette;

use vstd::prelude::*;

use crate::bytes::signed_byte;
use crate::error::Error;
use crate::types::{ResolvedDesign, StitchCommand};
use palette::JEF_PALETTE;

verus! {

/// Where the color table of a JEF file starts.
pub open spec fn jef_color_table_start() -> int {
    116
}

/// The thread color of a JEF palette index; an index outside the palette
/// takes entry 0.
pub open spec fn jef_color(idx: int) -> (u8, u8, u8) {
    if 0 <= idx < 79 {
        JEF_PALETTE@[idx]
    } else {
        JEF_PALETTE@[0]
    }
}

/// The colors of the color table entries `i..count` of `data`, stopping at
/// the first entry that does not fit in the data.
pub open spec fn jef_table_colors(data: Seq<u8>, count: int, i: int) -> Seq<(u8, u8, u8)>
    decreases count - i,
{
    if i < 0 || i >= count || 116 + 4 * i + 4 > data.len() {
        Seq::empty()
    } else {
        seq![jef_color(crate::bytes::le_i32_at(data, 116 + 4 * i))] + jef_table_colors(
            data,
            count,
            i + 1,
        )
    }
}

/// The colors of a JEF file; black when the table yields none.
pub open spec fn jef_colors(data: Seq<u8>) -> Seq<(u8, u8, u8)> {
    let c = jef_table_colors(data, crate::bytes::le_u32_at(data, 24), 0);
    if c.len() == 0 {
        seq![(0u8, 0u8, 0u8)]
    } else {
        c
    }
}

/// The message of an `InvalidHeader` error for a stitch offset past the end.
pub open spec fn offset_message(offset: usize, len: usize) -> Seq<char> {
    "stitch data offset "@ + crate::text::decimal(offset as nat) + " exceeds file length "@
        + crate::text::decimal(len as nat)
}

/// The message for a stitch offset past the end of the file.
fn stitch_offset_message(offset: usize, len: usize) -> (m: String)
    ensures
        m@ == offset_message(offset, len),
{
    let mut m = String::from_str("stitch data offset ");
    crate::text::push_decimal(&mut m, offset);
    m.append(" exceeds file length ");
    crate::text::push_decimal(&mut m, len);
    assert(m@ =~= offset_message(offset, len));
    m
}

/// The commands of the JEF stitch pairs of `data` from position `i` on.
///
/// A pair is a signed `(dx, -dy)` stitch unless its first byte is the escape
/// `0x80`; then the second byte is a color change (`0x01`), a jump whose
/// movement is the next pair (`0x02`; the stream stops when that pair is
/// missing), the end (`0x10`), or is skipped.
pub open spec fn jef_commands_from(data: Seq<u8>, i: int) -> Seq<StitchCommand>
    decreases data.len() - i,
{
    if i < 0 || i + 1 >= data.len() {
        Seq::empty()
    } else {
        let b1 = data[i];
        let b2 = data[i + 1];
        if b1 == 0x80 {
            if b2 == 0x01 {
                seq![StitchCommand::ColorChange] + jef_commands_from(data, i + 2)
            } else if b2 == 0x02 {
                if i + 3 >= data.len() {
                    Seq::empty()
                } else {
                    seq![
                        StitchCommand::Jump {
                            dx: crate::bytes::signed_byte_value(data[i + 2]) as i16,
                            dy: (-crate::bytes::signed_byte_value(data[i + 3])) as i16,
                        },
                    ] + jef_commands_from(data, i + 4)
                }
            } else if b2 == 0x10 {
                seq![StitchCommand::End]
            } else {
                jef_commands_from(data, i + 2)
            }
        } else {
            seq![
                StitchCommand::Stitch {
                    dx: crate::bytes::signed_byte_value(b1) as i16,
                    dy: (-crate::bytes::signed_byte_value(b2)) as i16,
                },
            ] + jef_commands_from(data, i + 2)
        }
    }
}

/// The commands of a JEF stitch stream, closed by `End`, or `NoStitchData`
/// when it yields none.
pub open spec fn jef_decode(data: Seq<u8>) -> Result<Seq<StitchCommand>, Error> {
    let c = jef_commands_from(data, 0);
    if c.len() == 0 {
        Err(Error::NoStitchData)
    } else if c.last() is End {
        Ok(c)
    } else {
        Ok(c.push(StitchCommand::End))
    }
}

/// `r` is what parsing the JEF file `data` gives: too short under 116 bytes,
/// an `InvalidHeader` when the stitch offset lies past the end, otherwise the
/// decoded stitch stream at the offset and the colors of the color table.
pub open spec fn jef_parse_matches(
    data: Seq<u8>,
    r: Result<(Vec<StitchCommand>, Vec<(u8, u8, u8)>), Error>,
) -> bool {
    let offset = crate::bytes::le_u32_at(data, 0);
    if data.len() < 116 {
        r matches Err(e) && e == (Error::TooShort { expected: 116, actual: data.len() as usize })
    } else if offset > data.len() {
        r matches Err(Error::InvalidHeader(m)) && m@ == offset_message(
            offset as usize,
            data.len() as usize,
        )
    } else {
        match jef_decode(data.subrange(offset, data.len() as int)) {
            Err(e) => r matches Err(e2) && e2 == e,
            Ok(c) => r matches Ok((cmds, colors)) && cmds@ == c && colors@ == jef_colors(data),
        }
    }
}

/// What resolving the JEF file `data` gives, as `jef_parse_matches` parses it.
pub open spec fn jef_resolves_to(data: Seq<u8>, r: Result<ResolvedDesign, Error>) -> bool {
    let offset = crate::bytes::le_u32_at(data, 0);
    if data.len() < 116 {
        r matches Err(e) && e == (Error::TooShort { expected: 116, actual: data.len() as usize })
    } else if offset > data.len() {
        r matches Err(Error::InvalidHeader(m)) && m@ == offset_message(
            offset as usize,
            data.len() as usize,
        )
    } else {
        match jef_decode(data.subrange(offset, data.len() as int)) {
            Err(e) => r matches Err(e2) && e2 == e,
            Ok(c) => crate::resolve::resolves_to(c, jef_colors(data), r),
        }
    }
}

/// Parse a JEF (Janome) file from raw bytes into stitch commands and color info.
///
/// JEF header layout (little-endian):
///   0..4:   stitch data offset (u32)
///   4..8:   flags/format indicator
///   24..28: color count (u32)
///   28..32: stitch count (u32)
///   116+:   color table (each entry: i32 palette index)
///
/// Stitch data: 2 bytes per stitch (signed i8 dx, dy).
/// Control codes: 0x80 0x01 = color change, 0x80 0x02 = jump, 0x80 0x10 = end.
pub fn parse(data: &[u8]) -> (r: Result<(Vec<StitchCommand>, Vec<(u8, u8, u8)>), Error>)
    ensures
        jef_parse_matches(data@, r),
{
    if data.len() < 116 {
        return Err(Error::TooShort { expected: 116, actual: data.len() });
    }

    let stitch_offset = read_u32_le(data, 0) as usize;
    let color_count = read_u32_le(data, 24) as usize;

    if stitch_offset > data.len() {
        return Err(Error::InvalidHeader(stitch_offset_message(stitch_offset, data.len())));
    }

    // Read color table starting at offset 116
    let color_table_start: usize = 116;
    let mut colors: Vec<(u8, u8, u8)> = Vec::new();
    let mut i: usize = 0;
    let n = data.len();
    while i < color_count
        invariant_except_break
            n == data@.len(),
            n >= 116,
            color_count == crate::bytes::le_u32_at(data@, 24),
            color_table_start == 116,
            color_table_start + 4 * i <= n,
            jef_table_colors(data@, color_count as int, 0) == colors@ + jef_table_colors(
                data@,
                color_count as int,
                i as int,
            ),
        ensures
            jef_table_colors(data@, color_count as int, 0) == colors@,
        decreases color_count - i,
    {
        let entry_offset = color_table_start + i * 4;
        if entry_offset > n - 4 {
            assert(jef_table_colors(data@, color_count as int, i as int) =~= Seq::empty());
            assert(colors@ + Seq::<(u8, u8, u8)>::empty() =~= colors@);
            break ;
        }
        let idx = read_i32_le(data, entry_offset);
        let palette_idx: usize = if idx >= 0 && (idx as usize) < JEF_PALETTE.len() {
            idx as usize
        } else {
            0
        };
        let ghost before = colors@;
        let color = JEF_PALETTE[palette_idx];
        assert(color == jef_color(crate::bytes::le_i32_at(data@, 116 + 4 * i)));
        colors.push(color);
        proof {
            let rest = jef_table_colors(data@, color_count as int, i + 1);
            assert(jef_table_colors(data@, color_count as int, i as int) == seq![color] + rest);
            assert(colors@ + rest =~= before + (seq![colors@.last()] + rest));
        }
        i = i + 1;
    }
    if colors.len() == 0 {
        colors.push((0, 0, 0));
    }

    // Parse stitch data
    let stitch_data = &data[stitch_offset..data.len()];
    let commands = match decode_stitches(stitch_data) {
        Ok(c) => c,
        Err(e) => {
            return Err(e);
        },
    };

    Ok((commands, colors))
}

/// Decode the JEF stitch stream; a stream that yields no command is
/// `NoStitchData`, and `End` is added when the stream does not end with one.
pub fn decode_stitches(data: &[u8]) -> (r: Result<Vec<StitchCommand>, Error>)
    ensures
        match r {
            Ok(c) => jef_decode(data@) == Ok::<Seq<StitchCommand>, Error>(c@),
            Err(e) => jef_decode(data@) == Err::<Seq<StitchCommand>, Error>(e),
        },
        r matches Ok(c) ==> c@.len() > 0 && c@.last() is End,
{
    let mut commands: Vec<StitchCommand> = Vec::new();
    let mut i: usize = 0;
    let n = data.len();
    if n < 2 {
        return Err(Error::NoStitchData);
    }

    while i < n - 1
        invariant_except_break
            n == data@.len(),
            n >= 2,
            i <= n,
            jef_commands_from(data@, 0) == commands@ + jef_commands_from(data@, i as int),
        ensures
            jef_commands_from(data@, 0) == commands@,
        decreases n - i,
    {
        let b1 = data[i];
        let b2 = data[i + 1];
        let ghost before = commands@;

        if b1 == 0x80 {
            if b2 == 0x01 {
                commands.push(StitchCommand::ColorChange);
                i = i + 2;
            } else if b2 == 0x02 {
                // Jump: next 2 bytes are movement
                i = i + 2;
                if i >= n - 1 {
                    assert(commands@ =~= commands@ + Seq::<StitchCommand>::empty());
                    break ;
                }
                let dx = signed_byte(data[i]);
                let dy = -signed_byte(data[i + 1]);
                commands.push(StitchCommand::Jump { dx, dy });
                i = i + 2;
            } else if b2 == 0x10 {
                commands.push(StitchCommand::End);
                assert(commands@ =~= before + seq![StitchCommand::End]);
                break ;
            } else {
                i = i + 2;
            }
        } else {
            let dx = signed_byte(b1);
            let dy = -signed_byte(b2);
            commands.push(StitchCommand::Stitch { dx, dy });
            i = i + 2;
        }
        proof {
            if commands@.len() > before.len() {
                assert(commands@ + jef_commands_from(data@, i as int) =~= before + (seq![
                    commands@.last(),
                ] + jef_commands_from(data@, i as int)));
            }
        }
    }
    assert(commands@ + Seq::<StitchCommand>::empty() =~= commands@);

    if commands.len() == 0 {
        return Err(Error::NoStitchData);
    }

    if commands[commands.len() - 1] != StitchCommand::End {
        commands.push(StitchCommand::End);
    }

    Ok(commands)
}

/// Parse a JEF file and resolve to a renderable design.
pub fn parse_and_resolve(data: &[u8]) -> (r: Result<ResolvedDesign, Error>)
    ensures
        jef_resolves_to(data@, r),
{
    let (commands, colors) = match parse(data) {
        Ok(v) => v,
        Err(e) => {
            return Err(e);
        },
    };
    crate::resolve::resolve(commands.as_slice(), colors)
}

/// The little-endian `u32` at `offset`.
fn read_u32_le(data: &[u8], offset: usize) -> (v: u32)
    requires
        offset + 4 <= data@.len(),
    ensures
        v == crate::bytes::le_u32_at(data@, offset as int),
{
    data[offset] as u32 + data[offset + 1] as u32 * 256 + data[offset + 2] as u32 * 65536
        + data[offset + 3] as u32 * 16777216
}

/// The little-endian `i32` at `offset`.
fn read_i32_le(data: &[u8], offset: usize) -> (v: i32)
    requires
        offset + 4 <= data@.len(),
    ensures
        v == crate::bytes::le_i32_at(data@, offset as int),
{
    let u = read_u32_le(data, offset);
    if u >= 0x8000_0000 {
        let low = (u - 0x8000_0000) as i32;
        low - 0x4000_0000 - 0x4000_0000
    } else {
        u as i32
    }
}

} // verus!
