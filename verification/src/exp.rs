use vstd::prelude::*;

use crate::bytes::signed_byte;
use crate::error::Error;
use crate::types::{ResolvedDesign, StitchCommand};

verus! {

/// The commands of the EXP byte pairs of `data` from position `i` on.
///
/// A pair is a signed `(dx, dy)` stitch unless its first byte is the escape
/// `0x80`; then the second byte is a color change (`0x01`, `0x02`), a trim
/// (`0x80`), a jump whose movement is the next pair (`0x04`; the stream stops
/// when that pair is missing), or is skipped.
pub open spec fn exp_commands_from(data: Seq<u8>, i: int) -> Seq<StitchCommand>
    decreases data.len() - i,
{
    if i < 0 || i + 1 >= data.len() {
        Seq::empty()
    } else {
        let b1 = data[i];
        let b2 = data[i + 1];
        if b1 == 0x80 {
            if b2 == 0x01 || b2 == 0x02 {
                seq![StitchCommand::ColorChange] + exp_commands_from(data, i + 2)
            } else if b2 == 0x80 {
                seq![StitchCommand::Trim] + exp_commands_from(data, i + 2)
            } else if b2 == 0x04 {
                if i + 3 >= data.len() {
                    Seq::empty()
                } else {
                    seq![
                        StitchCommand::Jump {
                            dx: crate::bytes::signed_byte_value(data[i + 2]) as i16,
                            dy: crate::bytes::signed_byte_value(data[i + 3]) as i16,
                        },
                    ] + exp_commands_from(data, i + 4)
                }
            } else {
                exp_commands_from(data, i + 2)
            }
        } else {
            seq![
                StitchCommand::Stitch {
                    dx: crate::bytes::signed_byte_value(b1) as i16,
                    dy: crate::bytes::signed_byte_value(b2) as i16,
                },
            ] + exp_commands_from(data, i + 2)
        }
    }
}

/// The commands of an EXP file, always closed by `End`, or the error.
pub open spec fn exp_parse_spec(data: Seq<u8>) -> Result<Seq<StitchCommand>, Error> {
    if data.len() < 2 {
        Err(Error::TooShort { expected: 2, actual: data.len() as usize })
    } else {
        let c = exp_commands_from(data, 0).push(StitchCommand::End);
        if c.len() <= 1 {
            Err(Error::NoStitchData)
        } else {
            Ok(c)
        }
    }
}

/// Parse an EXP (Melco) file from raw bytes into stitch commands.
///
/// EXP format: 2 bytes per stitch (signed i8 dx, dy).
/// Escape byte 0x80 followed by a control byte:
///   0x01 = color change
///   0x02 = color change (variant)
///   0x04 = jump (next 2 bytes are jump dx, dy)
///   0x80 = trim
pub fn parse(data: &[u8]) -> (r: Result<Vec<StitchCommand>, Error>)
    ensures
        match r {
            Ok(c) => exp_parse_spec(data@) == Ok::<Seq<StitchCommand>, Error>(c@),
            Err(e) => exp_parse_spec(data@) == Err::<Seq<StitchCommand>, Error>(e),
        },
        r matches Ok(c) ==> c@.len() > 1 && c@.last() is End,
{
    if data.len() < 2 {
        return Err(Error::TooShort { expected: 2, actual: data.len() });
    }

    let mut commands: Vec<StitchCommand> = Vec::new();
    let mut i: usize = 0;
    let n = data.len();

    while i < n - 1
        invariant_except_break
            n == data@.len(),
            n >= 2,
            i <= n,
            exp_commands_from(data@, 0) == commands@ + exp_commands_from(data@, i as int),
        ensures
            exp_commands_from(data@, 0) == commands@,
        decreases n - i,
    {
        let b1 = data[i];
        let b2 = data[i + 1];
        let ghost before = commands@;

        if b1 == 0x80 {
            if b2 == 0x01 || b2 == 0x02 {
                commands.push(StitchCommand::ColorChange);
                i = i + 2;
            } else if b2 == 0x80 {
                commands.push(StitchCommand::Trim);
                i = i + 2;
            } else if b2 == 0x04 {
                // Jump: next 2 bytes are the movement
                i = i + 2;
                if i >= n - 1 {
                    assert(commands@ =~= commands@ + Seq::<StitchCommand>::empty());
                    break ;
                }
                let dx = signed_byte(data[i]);
                let dy = signed_byte(data[i + 1]);
                commands.push(StitchCommand::Jump { dx, dy });
                i = i + 2;
            } else {
                // Unknown escape, skip
                i = i + 2;
            }
        } else {
            let dx = signed_byte(b1);
            let dy = signed_byte(b2);
            commands.push(StitchCommand::Stitch { dx, dy });
            i = i + 2;
        }
        proof {
            if commands@.len() > before.len() {
                assert(commands@ + exp_commands_from(data@, i as int) =~= before + (seq![
                    commands@.last(),
                ] + exp_commands_from(data@, i as int)));
            }
        }
    }
    assert(commands@ + Seq::<StitchCommand>::empty() =~= commands@);

    commands.push(StitchCommand::End);

    if commands.len() <= 1 {
        return Err(Error::NoStitchData);
    }

    Ok(commands)
}

/// Parse an EXP file and resolve to a renderable design, with one default
/// color per thread (color changes plus one).
pub fn parse_and_resolve(data: &[u8]) -> (r: Result<ResolvedDesign, Error>)
    ensures
        match exp_parse_spec(data@) {
            Err(e) => r matches Err(e2) && e2 == e,
            Ok(c) => crate::resolve::resolves_to(c, crate::palette::default_color_list(c), r),
        },
{
    let commands = match parse(data) {
        Ok(c) => c,
        Err(e) => {
            return Err(e);
        },
    };
    let changes = crate::resolve::count_color_changes(commands.as_slice());
    proof {
        crate::resolve::lemma_color_change_count_bound(commands@);
        assert(commands@.len() > 0);
        assert(commands@.last() is End);
        assert(changes < commands@.len());
    }
    let colors = crate::palette::default_colors(changes + 1);
    assert(colors@ =~= crate::palette::default_color_list(commands@));
    crate::resolve::resolve(commands.as_slice(), colors)
}

} // verus!
