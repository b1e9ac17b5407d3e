use vstd::prelude::*;

use crate::error::Error;
use crate::types::{ResolvedDesign, StitchCommand};

verus! {

/// `v` when bit `mask` of `b` is set, else 0.
pub open spec fn bit_weight(b: u8, mask: u8, v: int) -> int {
    if b & mask != 0 {
        v
    } else {
        0
    }
}

/// The X displacement of a Tajima record: ±1, ±9 (byte 0), -3, ±27
/// (byte 1), ±81 (byte 2). Bit 0 of byte 1 adds nothing.
pub open spec fn dst_dx(b0: u8, b1: u8, b2: u8) -> int {
    bit_weight(b0, 0x01, 1) - bit_weight(b0, 0x02, 1) + bit_weight(b0, 0x04, 9) - bit_weight(
        b0,
        0x08,
        9,
    ) - bit_weight(b1, 0x02, 3) + bit_weight(b1, 0x04, 27) - bit_weight(b1, 0x08, 27)
        + bit_weight(b2, 0x04, 81) - bit_weight(b2, 0x08, 81)
}

/// The Y displacement of a Tajima record, turned to screen orientation (the
/// file counts upwards).
pub open spec fn dst_dy(b0: u8, b1: u8, b2: u8) -> int {
    -(bit_weight(b0, 0x80, 1) - bit_weight(b0, 0x40, 1) + bit_weight(b0, 0x20, 9) - bit_weight(
        b0,
        0x10,
        9,
    ) + bit_weight(b1, 0x80, 3) - bit_weight(b1, 0x40, 3) + bit_weight(b1, 0x20, 27)
        - bit_weight(b1, 0x10, 27) + bit_weight(b2, 0x20, 81) - bit_weight(b2, 0x10, 81))
}

/// Whether `data` opens with a 512-byte `LA:` header (and has more after it).
pub open spec fn dst_has_header(data: Seq<u8>) -> bool {
    data.len() > 512 && data[0] == 0x4C && data[1] == 0x41 && data[2] == 0x3A
}

/// The command of one three-byte record whose third byte is not an end mark.
pub open spec fn dst_record(b0: u8, b1: u8, b2: u8) -> StitchCommand {
    if b2 & 0x80 != 0 {
        StitchCommand::ColorChange
    } else if b2 & 0x40 != 0 {
        StitchCommand::Jump { dx: dst_dx(b0, b1, b2) as i16, dy: dst_dy(b0, b1, b2) as i16 }
    } else {
        StitchCommand::Stitch { dx: dst_dx(b0, b1, b2) as i16, dy: dst_dy(b0, b1, b2) as i16 }
    }
}

/// The commands of the three-byte records of `sd` from position `i` on, up to
/// and including an end mark (both low bits of the third byte set); a
/// trailing partial record is ignored.
pub open spec fn dst_records_from(sd: Seq<u8>, i: int) -> Seq<StitchCommand>
    decreases sd.len() - i,
{
    if i < 0 || i + 2 >= sd.len() {
        Seq::empty()
    } else if sd[i + 2] & 0x03 == 0x03 {
        seq![StitchCommand::End]
    } else {
        seq![dst_record(sd[i], sd[i + 1], sd[i + 2])] + dst_records_from(sd, i + 3)
    }
}

/// The commands of a DST file, or the error.
pub open spec fn dst_parse_spec(data: Seq<u8>) -> Result<Seq<StitchCommand>, Error> {
    if data.len() < 3 {
        Err(Error::TooShort { expected: 3, actual: data.len() as usize })
    } else {
        let sd = if dst_has_header(data) {
            data.subrange(512, data.len() as int)
        } else {
            data
        };
        if sd.len() < 3 {
            Err(Error::NoStitchData)
        } else {
            let c = dst_records_from(sd, 0);
            if c.len() == 0 || (c.len() == 1 && c[0] is End) {
                Err(Error::NoStitchData)
            } else if c.last() is End {
                Ok(c)
            } else {
                Ok(c.push(StitchCommand::End))
            }
        }
    }
}

/// Parse a DST (Tajima) file from raw bytes into stitch commands.
///
/// DST format: 3 bytes per stitch record with bit-packed dx, dy, and control flags.
/// The standard Tajima bit layout maps specific bits across all 3 bytes to coordinate values.
pub fn parse(data: &[u8]) -> (r: Result<Vec<StitchCommand>, Error>)
    ensures
        match r {
            Ok(c) => dst_parse_spec(data@) == Ok::<Seq<StitchCommand>, Error>(c@),
            Err(e) => dst_parse_spec(data@) == Err::<Seq<StitchCommand>, Error>(e),
        },
        r matches Ok(c) ==> c@.len() > 0 && c@.last() is End,
{
    if data.len() < 3 {
        return Err(Error::TooShort { expected: 3, actual: data.len() });
    }

    // DST files may have a 512-byte header; stitch data can start at byte 512
    // if the file is large enough, or at byte 0 for raw stitch streams.
    // The header contains "LA:" at offset 0 if present.
    let offset: usize = if data.len() > 512 && data[0] == 0x4C && data[1] == 0x41 && data[2]
        == 0x3A {
        512
    } else {
        0
    };

    let stitch_data = &data[offset..data.len()];
    assert(offset == 0 ==> stitch_data@ =~= data@);
    if stitch_data.len() < 3 {
        return Err(Error::NoStitchData);
    }

    let mut commands: Vec<StitchCommand> = Vec::new();
    let mut i: usize = 0;
    let n = stitch_data.len();
    let ghost sd = stitch_data@;

    while i < n - 2
        invariant_except_break
            sd == stitch_data@,
            n == sd.len(),
            n >= 3,
            i <= n,
            dst_records_from(sd, 0) == commands@ + dst_records_from(sd, i as int),
        ensures
            dst_records_from(sd, 0) == commands@,
        decreases n - i,
    {
        let b0 = stitch_data[i];
        let b1 = stitch_data[i + 1];
        let b2 = stitch_data[i + 2];
        let ghost before = commands@;
        i = i + 3;

        // End of file: byte 2 bits 0 and 1 both set
        if b2 & 0x03 == 0x03 {
            commands.push(StitchCommand::End);
            assert(commands@ =~= before + seq![StitchCommand::End]);
            break ;
        }

        let dx = decode_dx(b0, b1, b2);
        let dy = decode_dy(b0, b1, b2);

        let cmd = if b2 & 0x80 != 0 {
            // Color change: byte 2 bit 7
            StitchCommand::ColorChange
        } else if b2 & 0x40 != 0 {
            // Jump: byte 2 bit 6
            StitchCommand::Jump { dx, dy }
        } else {
            StitchCommand::Stitch { dx, dy }
        };
        commands.push(cmd);
        assert(commands@ + dst_records_from(sd, i as int) =~= before + (seq![cmd]
            + dst_records_from(sd, i as int)));
    }
    assert(commands@ + Seq::<StitchCommand>::empty() =~= commands@);

    let len = commands.len();
    if len == 0 || (len == 1 && commands[0] == StitchCommand::End) {
        return Err(Error::NoStitchData);
    }

    // Ensure we have an End marker
    if commands[len - 1] != StitchCommand::End {
        commands.push(StitchCommand::End);
    }

    Ok(commands)
}

/// Parse a DST file and resolve to a renderable design, with one default
/// color per thread (color changes plus one).
pub fn parse_and_resolve(data: &[u8]) -> (r: Result<ResolvedDesign, Error>)
    ensures
        match dst_parse_spec(data@) {
            Err(e) => r matches Err(e2) && e2 == e,
            Ok(c) => crate::resolve::resolves_to(c, crate::palette::default_color_list(c), r),
        },
{
    let commands = match parse(data) {
        Ok(c) => c,
        Err(e) => {
            return Err(e);
        },
    };
    let changes = crate::resolve::count_color_changes(commands.as_slice());
    proof {
        crate::resolve::lemma_color_change_count_bound(commands@);
        assert(commands@.len() > 0);
        assert(commands@.last() is End);
        assert(changes < commands@.len());
    }
    let colors = crate::palette::default_colors(changes + 1);
    assert(colors@ =~= crate::palette::default_color_list(commands@));
    crate::resolve::resolve(commands.as_slice(), colors)
}

/// Decode X displacement from the 3-byte Tajima record.
/// Standard bit layout for dx across bytes b0, b1, b2.
pub fn decode_dx(b0: u8, b1: u8, b2: u8) -> (x: i16)
    ensures
        x == dst_dx(b0, b1, b2),
        -121 <= x <= 118,
{
    let mut x: i16 = 0;
    if b0 & 0x01 != 0 {
        x += 1;
    }
    if b0 & 0x02 != 0 {
        x -= 1;
    }
    if b0 & 0x04 != 0 {
        x += 9;
    }
    if b0 & 0x08 != 0 {
        x -= 9;
    }
    if b1 & 0x02 != 0 {
        x -= 3;
    }
    if b1 & 0x04 != 0 {
        x += 27;
    }
    if b1 & 0x08 != 0 {
        x -= 27;
    }
    if b2 & 0x04 != 0 {
        x += 81;
    }
    if b2 & 0x08 != 0 {
        x -= 81;
    }
    x
}

/// Decode Y displacement from the 3-byte Tajima record.
/// Standard bit layout for dy across bytes b0, b1, b2.
pub fn decode_dy(b0: u8, b1: u8, b2: u8) -> (r: i16)
    ensures
        r == dst_dy(b0, b1, b2),
        -121 <= r <= 121,
{
    let mut y: i16 = 0;
    if b0 & 0x80 != 0 {
        y += 1;
    }
    if b0 & 0x40 != 0 {
        y -= 1;
    }
    if b0 & 0x20 != 0 {
        y += 9;
    }
    if b0 & 0x10 != 0 {
        y -= 9;
    }
    if b1 & 0x80 != 0 {
        y += 3;
    }
    if b1 & 0x40 != 0 {
        y -= 3;
    }
    if b1 & 0x20 != 0 {
        y += 27;
    }
    if b1 & 0x10 != 0 {
        y -= 27;
    }
    if b2 & 0x20 != 0 {
        y += 81;
    }
    if b2 & 0x10 != 0 {
        y -= 81;
    }
    // DST Y axis is inverted (positive = up in machine coords, down in screen coords)
    -y
}

} // verus!
