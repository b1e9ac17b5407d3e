use vstd::prelude::*;

use crate::bytes::signed_byte;
use crate::error::{Error, ErrorView};
use crate::types::{ResolvedDesign, StitchCommand};

verus! {

// ---------------------------------------------------------------------------
// The format, stated over byte positions
// ---------------------------------------------------------------------------

/// The big-endian `u16` at `pos`.
pub open spec fn be16(data: Seq<u8>, pos: int) -> int {
    data[pos] * 256 + data[pos + 1]
}

/// The big-endian `u32` at `pos`.
pub open spec fn be32(data: Seq<u8>, pos: int) -> int {
    data[pos] * 16777216 + data[pos + 1] * 65536 + data[pos + 2] * 256 + data[pos + 3]
}

/// The big-endian `i16` at `pos`.
pub open spec fn be_i16(data: Seq<u8>, pos: int) -> int {
    let v = be16(data, pos);
    if v >= 32768 {
        v - 65536
    } else {
        v
    }
}

/// The message of an `InvalidHeader` error for a string longer than the data.
pub open spec fn string_length_message(len: usize, remaining: usize) -> Seq<char> {
    "string length "@ + crate::text::decimal(len as nat) + " exceeds remaining data "@
        + crate::text::decimal(remaining as nat)
}

/// Skipping a length-prefixed string at `pos`: the position after it, or the
/// error when the length prefix or the string does not fit.
pub open spec fn vp3_skip_string(data: Seq<u8>, pos: int) -> Result<int, ErrorView> {
    if data.len() - pos < 2 {
        Err(ErrorView::TooShort { expected: (pos + 2) as usize, actual: data.len() as usize })
    } else if be16(data, pos) > data.len() - (pos + 2) {
        Err(
            ErrorView::InvalidHeader(
                string_length_message(
                    be16(data, pos) as usize,
                    (data.len() - (pos + 2)) as usize,
                ),
            ),
        )
    } else {
        Ok(pos + 2 + be16(data, pos))
    }
}

/// The position where the color sections count starts, for a header read
/// from `start`: after the producer string, 24 bytes of design fields, two strings, 6 optional bytes and an
/// optional string (taken only when its length is under 1000 and it fits).
pub open spec fn vp3_header_end(data: Seq<u8>, start: int) -> Result<int, ErrorView> {
    match vp3_skip_string(data, start) {
        Err(e) => Err(e),
        Ok(p1) => if data.len() - p1 < 38 {
            Err(ErrorView::TooShort { expected: 38, actual: (data.len() - p1) as usize })
        } else {
            match vp3_skip_string(data, p1 + 24) {
                Err(e) => Err(e),
                Ok(p2) => match vp3_skip_string(data, p2) {
                    Err(e) => Err(e),
                    Ok(p3) => {
                        let p4 = if data.len() - p3 >= 6 {
                            p3 + 6
                        } else {
                            p3
                        };
                        if data.len() - p4 >= 2 && be16(data, p4) < 1000 && be16(data, p4) + 2
                            <= data.len() - p4 {
                            vp3_skip_string(data, p4)
                        } else {
                            Ok(p4)
                        }
                    },
                },
            }
        },
    }
}

/// The stitch records from `pos` while `pos < end` and two bytes remain, and
/// the position after them; `None` when a jump's `dy` is `i16::MIN`, whose
/// negation does not fit in an `i16`.
///
/// A first byte with the high bit set starts a jump of two big-endian `i16`
/// (the stream stops when fewer than four bytes remain); otherwise two signed
/// bytes `(dx, -dy)` make a stitch, or a trim when both are zero (the stream
/// stops when the second byte lies at `end`).
pub open spec fn vp3_decode(data: Seq<u8>, pos: int, end: int) -> Option<(int, Seq<StitchCommand>)>
    decreases data.len() - pos,
{
    if !(pos < end && data.len() - pos >= 2) {
        Some((pos, Seq::empty()))
    } else if data[pos] >= 0x80 {
        if data.len() - pos < 4 {
            Some((pos, Seq::empty()))
        } else if be_i16(data, pos + 2) == -32768 {
            None
        } else {
            match vp3_decode(data, pos + 4, end) {
                None => None,
                Some((p, c)) => Some(
                    (
                        p,
                        seq![
                            StitchCommand::Jump {
                                dx: be_i16(data, pos) as i16,
                                dy: (-be_i16(data, pos + 2)) as i16,
                            },
                        ] + c,
                    ),
                ),
            }
        }
    } else if pos + 1 >= end {
        Some((pos + 1, Seq::empty()))
    } else {
        let dx = crate::bytes::signed_byte_value(data[pos]);
        let dy = -crate::bytes::signed_byte_value(data[pos + 1]);
        let cmd = if dx == 0 && dy == 0 {
            StitchCommand::Trim
        } else {
            StitchCommand::Stitch { dx: dx as i16, dy: dy as i16 }
        };
        match vp3_decode(data, pos + 2, end) {
            None => None,
            Some((p, c)) => Some((p, seq![cmd] + c)),
        }
    }
}

/// Where stitch decoding from `pos` stops at a jump whose `dy` is
/// `i16::MIN`: the position of that record and the commands decoded before
/// it. Meaningful where `vp3_decode` gives `None`.
pub open spec fn vp3_decode_until_overflow(data: Seq<u8>, pos: int, end: int) -> (
    int,
    Seq<StitchCommand>,
)
    decreases data.len() - pos,
{
    if !(pos < end && data.len() - pos >= 2) {
        (pos, Seq::empty())
    } else if data[pos] >= 0x80 {
        if data.len() - pos < 4 || be_i16(data, pos + 2) == -32768 {
            (pos, Seq::empty())
        } else {
            let (p, c) = vp3_decode_until_overflow(data, pos + 4, end);
            (
                p,
                seq![
                    StitchCommand::Jump {
                        dx: be_i16(data, pos) as i16,
                        dy: (-be_i16(data, pos + 2)) as i16,
                    },
                ] + c,
            )
        }
    } else if pos + 1 >= end {
        (pos + 1, Seq::empty())
    } else {
        let dx = crate::bytes::signed_byte_value(data[pos]);
        let dy = -crate::bytes::signed_byte_value(data[pos + 1]);
        let cmd = if dx == 0 && dy == 0 {
            StitchCommand::Trim
        } else {
            StitchCommand::Stitch { dx: dx as i16, dy: dy as i16 }
        };
        let (p, c) = vp3_decode_until_overflow(data, pos + 2, end);
        (p, seq![cmd] + c)
    }
}

/// The outcome of reading one color section.
pub enum SectionOutcome {
    /// The position after the section, the commands so far, the thread color.
    Read(int, Seq<StitchCommand>, (u8, u8, u8)),
    Failed(ErrorView),
    /// A jump's `dy` negation overflows `i16`.
    Overflow,
}

/// The part of a color section after its thread color: two strings, 18
/// optional bytes, then an optional stitch block (a big-endian byte count
/// and that many stitch bytes; a zero or too large count leaves no block).
pub open spec fn vp3_section_body(
    data: Seq<u8>,
    pos: int,
    cmds: Seq<StitchCommand>,
    color: (u8, u8, u8),
) -> SectionOutcome {
    match vp3_skip_string(data, pos) {
        Err(e) => SectionOutcome::Failed(e),
        Ok(p1) => match vp3_skip_string(data, p1) {
            Err(e) => SectionOutcome::Failed(e),
            Ok(p2) => {
                let p3 = if data.len() - p2 >= 18 {
                    p2 + 18
                } else {
                    p2
                };
                if data.len() - p3 < 4 {
                    SectionOutcome::Read(p3, cmds, color)
                } else {
                    let count = be32(data, p3);
                    let p4 = p3 + 4;
                    if count == 0 || count > data.len() - p4 {
                        SectionOutcome::Read(p4, cmds, color)
                    } else {
                        match vp3_decode(data, p4, p4 + count) {
                            None => SectionOutcome::Overflow,
                            Some((p5, c)) => SectionOutcome::Read(
                                if p5 < p4 + count {
                                    p4 + count
                                } else {
                                    p5
                                },
                                cmds + c,
                                color,
                            ),
                        }
                    }
                }
            },
        },
    }
}

/// The commands when a color section starts: a color change after `cmds`,
/// unless `cmds` is empty.
pub open spec fn vp3_section_start(cmds: Seq<StitchCommand>) -> Seq<StitchCommand> {
    if cmds.len() > 0 {
        cmds.push(StitchCommand::ColorChange)
    } else {
        cmds
    }
}

/// Reading the color section at `pos` after the commands `cmds`: a color
/// change when `cmds` is not empty, 8 position bytes, a string, the thread
/// color, then the section body.
pub open spec fn vp3_section(data: Seq<u8>, pos: int, cmds: Seq<StitchCommand>) -> SectionOutcome {
    let cmds1 = vp3_section_start(cmds);
    if data.len() - pos < 12 {
        SectionOutcome::Failed(
            ErrorView::TooShort { expected: 12, actual: (data.len() - pos) as usize },
        )
    } else {
        match vp3_skip_string(data, pos + 8) {
            Err(e) => SectionOutcome::Failed(e),
            Ok(p) => if data.len() - p < 3 {
                SectionOutcome::Failed(
                    ErrorView::TooShort { expected: 3, actual: (data.len() - p) as usize },
                )
            } else {
                vp3_section_body(data, p + 3, cmds1, (data[p], data[p + 1], data[p + 2]))
            },
        }
    }
}

/// The outcome of parsing a whole file.
pub enum Vp3Outcome {
    /// The commands and the thread colors.
    Parsed(Seq<StitchCommand>, Seq<(u8, u8, u8)>),
    Failed(ErrorView),
    /// A jump's `dy` negation overflows `i16`.
    Overflow,
}

/// Reading up to `k` color sections from `pos`, stopping early when fewer
/// than four bytes remain.
pub open spec fn vp3_sections(
    data: Seq<u8>,
    pos: int,
    k: int,
    cmds: Seq<StitchCommand>,
    colors: Seq<(u8, u8, u8)>,
) -> Vp3Outcome
    decreases k,
{
    if k <= 0 || data.len() - pos < 4 {
        Vp3Outcome::Parsed(cmds, colors)
    } else {
        match vp3_section(data, pos, cmds) {
            SectionOutcome::Failed(e) => Vp3Outcome::Failed(e),
            SectionOutcome::Overflow => Vp3Outcome::Overflow,
            SectionOutcome::Read(p, c, color) => vp3_sections(data, p, k - 1, c, colors.push(color)),
        }
    }
}

/// The end of parsing: no command is `NoStitchData`, and `End` closes the
/// commands.
pub open spec fn vp3_finish(o: Vp3Outcome) -> Vp3Outcome {
    match o {
        Vp3Outcome::Parsed(c, colors) => if c.len() == 0 {
            Vp3Outcome::Failed(ErrorView::NoStitchData)
        } else if c.last() is End {
            Vp3Outcome::Parsed(c, colors)
        } else {
            Vp3Outcome::Parsed(c.push(StitchCommand::End), colors)
        },
        other => other,
    }
}

/// Parsing the VP3 file `data`: at least 20 bytes, the header, a big-endian
/// count of color sections, the sections; no command is `NoStitchData`, and
/// `End` closes the commands.
pub open spec fn vp3_parse_spec(data: Seq<u8>) -> Vp3Outcome {
    if data.len() < 20 {
        Vp3Outcome::Failed(ErrorView::TooShort { expected: 20, actual: data.len() as usize })
    } else {
        match vp3_header_end(data, 0) {
            Err(e) => Vp3Outcome::Failed(e),
            Ok(p) => if data.len() - p < 2 {
                Vp3Outcome::Failed(
                    ErrorView::TooShort { expected: (p + 2) as usize, actual: data.len() as usize },
                )
            } else {
                vp3_finish(vp3_sections(data, p + 2, be16(data, p), Seq::empty(), Seq::empty()))
            },
        }
    }
}

/// `r` is what parsing `data` gives, provided the parse does not overflow.
pub open spec fn vp3_parse_matches(
    data: Seq<u8>,
    r: Result<(Vec<StitchCommand>, Vec<(u8, u8, u8)>), Error>,
) -> bool {
    match vp3_parse_spec(data) {
        Vp3Outcome::Parsed(c, colors) => r matches Ok((cv, colv)) && cv@ == c && colv@ == colors,
        Vp3Outcome::Failed(e) => r matches Err(e2) && e2@ == e,
        Vp3Outcome::Overflow => false,
    }
}

// ---------------------------------------------------------------------------
// The byte reader
// ---------------------------------------------------------------------------

/// A position in a byte slice.
pub struct Reader<'a> {
    data: &'a [u8],
    pos: usize,
}

impl<'a> Reader<'a> {
    /// The bytes read.
    pub closed spec fn bytes(&self) -> Seq<u8> {
        self.data@
    }

    /// The position.
    pub closed spec fn position(&self) -> int {
        self.pos as int
    }

    /// The position lies in the data, and the data is no longer than a slice
    /// can be.
    pub open spec fn wf(&self) -> bool {
        &&& self.position() <= self.bytes().len()
        &&& self.bytes().len() <= isize::MAX
    }

    /// A reader at the start of `data`.
    pub fn new(data: &'a [u8]) -> (r: Self)
        ensures
            r.bytes() == data@,
            r.position() == 0,
    {
        Self { data, pos: 0 }
    }

    /// The number of bytes after the position.
    fn remaining(&self) -> (n: usize)
        requires
            self.wf(),
        ensures
            n == self.bytes().len() - self.position(),
    {
        self.data.len() - self.pos
    }

    /// Read one byte.
    fn read_u8(&mut self) -> (r: Result<u8, Error>)
        requires
            old(self).wf(),
        ensures
            final(self).bytes() == old(self).bytes(),
            final(self).wf(),
            old(self).position() >= old(self).bytes().len() ==> {
                &&& final(self).position() == old(self).position()
                &&& r matches Err(e) && e@ == (ErrorView::TooShort {
                    expected: (old(self).position() + 1) as usize,
                    actual: old(self).bytes().len() as usize,
                })
            },
            old(self).position() < old(self).bytes().len() ==> {
                &&& final(self).position() == old(self).position() + 1
                &&& r == Ok::<u8, Error>(old(self).bytes()[old(self).position()])
            },
    {
        if self.pos >= self.data.len() {
            return Err(Error::TooShort { expected: self.pos + 1, actual: self.data.len() });
        }
        let v = self.data[self.pos];
        self.pos = self.pos + 1;
        Ok(v)
    }

    /// Read a big-endian `u16`.
    fn read_u16_be(&mut self) -> (r: Result<u16, Error>)
        requires
            old(self).wf(),
        ensures
            final(self).bytes() == old(self).bytes(),
            final(self).wf(),
            old(self).position() + 2 > old(self).bytes().len() ==> {
                &&& final(self).position() == old(self).position()
                &&& r matches Err(e) && e@ == (ErrorView::TooShort {
                    expected: (old(self).position() + 2) as usize,
                    actual: old(self).bytes().len() as usize,
                })
            },
            old(self).position() + 2 <= old(self).bytes().len() ==> {
                &&& final(self).position() == old(self).position() + 2
                &&& r matches Ok(v) && v == be16(old(self).bytes(), old(self).position())
            },
    {
        if self.pos + 2 > self.data.len() {
            return Err(Error::TooShort { expected: self.pos + 2, actual: self.data.len() });
        }
        let v = self.data[self.pos] as u16 * 256 + self.data[self.pos + 1] as u16;
        self.pos = self.pos + 2;
        Ok(v)
    }

    /// The big-endian `u16` at the position, without moving.
    fn peek_u16_be(&self) -> (r: Result<u16, Error>)
        requires
            self.wf(),
        ensures
            self.position() + 2 > self.bytes().len() ==> (r matches Err(e) && e@
                == (ErrorView::TooShort {
                expected: (self.position() + 2) as usize,
                actual: self.bytes().len() as usize,
            })),
            self.position() + 2 <= self.bytes().len() ==> (r matches Ok(v) && v == be16(
                self.bytes(),
                self.position(),
            )),
    {
        if self.pos + 2 > self.data.len() {
            return Err(Error::TooShort { expected: self.pos + 2, actual: self.data.len() });
        }
        Ok(self.data[self.pos] as u16 * 256 + self.data[self.pos + 1] as u16)
    }

    /// Read a big-endian `u32`.
    fn read_u32_be(&mut self) -> (r: Result<u32, Error>)
        requires
            old(self).wf(),
        ensures
            final(self).bytes() == old(self).bytes(),
            final(self).wf(),
            old(self).position() + 4 > old(self).bytes().len() ==> {
                &&& final(self).position() == old(self).position()
                &&& r matches Err(e) && e@ == (ErrorView::TooShort {
                    expected: (old(self).position() + 4) as usize,
                    actual: old(self).bytes().len() as usize,
                })
            },
            old(self).position() + 4 <= old(self).bytes().len() ==> {
                &&& final(self).position() == old(self).position() + 4
                &&& r matches Ok(v) && v == be32(old(self).bytes(), old(self).position())
            },
    {
        if self.pos + 4 > self.data.len() {
            return Err(Error::TooShort { expected: self.pos + 4, actual: self.data.len() });
        }
        let v = self.data[self.pos] as u32 * 16777216 + self.data[self.pos + 1] as u32 * 65536
            + self.data[self.pos + 2] as u32 * 256 + self.data[self.pos + 3] as u32;
        self.pos = self.pos + 4;
        Ok(v)
    }

    /// Move `n` bytes forward.
    fn skip(&mut self, n: usize) -> (r: Result<(), Error>)
        requires
            old(self).wf(),
            n <= isize::MAX,
        ensures
            final(self).bytes() == old(self).bytes(),
            final(self).wf(),
            old(self).position() + n > old(self).bytes().len() ==> {
                &&& final(self).position() == old(self).position()
                &&& r matches Err(e) && e@ == (ErrorView::TooShort {
                    expected: (old(self).position() + n) as usize,
                    actual: old(self).bytes().len() as usize,
                })
            },
            old(self).position() + n <= old(self).bytes().len() ==> {
                &&& final(self).position() == old(self).position() + n
                &&& r is Ok
            },
    {
        if self.pos + n > self.data.len() {
            return Err(Error::TooShort { expected: self.pos + n, actual: self.data.len() });
        }
        self.pos = self.pos + n;
        Ok(())
    }
}

// ---------------------------------------------------------------------------
// Parsing
// ---------------------------------------------------------------------------

/// The message for a string longer than the data after it.
fn string_length_text(len: usize, remaining: usize) -> (m: String)
    ensures
        m@ == string_length_message(len, remaining),
{
    let mut m = String::from_str("string length ");
    crate::text::push_decimal(&mut m, len);
    m.append(" exceeds remaining data ");
    crate::text::push_decimal(&mut m, remaining);
    assert(m@ =~= string_length_message(len, remaining));
    m
}

/// The big-endian `i16` at `pos`.
fn read_i16_be(data: &[u8], pos: usize) -> (v: i16)
    requires
        pos + 2 <= data@.len(),
    ensures
        v == be_i16(data@, pos as int),
{
    let u: u16 = data[pos] as u16 * 256 + data[pos + 1] as u16;
    if u >= 32768 {
        (u - 32768) as i16 - 16384 - 16384
    } else {
        u as i16
    }
}

/// Skip a string prefixed by its big-endian `u16` length.
fn skip_string(reader: &mut Reader) -> (r: Result<(), Error>)
    requires
        old(reader).wf(),
    ensures
        final(reader).bytes() == old(reader).bytes(),
        final(reader).wf(),
        match vp3_skip_string(old(reader).bytes(), old(reader).position()) {
            Ok(p) => r is Ok && final(reader).position() == p,
            Err(e) => r matches Err(e2) && e2@ == e,
        },
        old(reader).bytes().len() - old(reader).position() < 2 ==> final(reader).position()
            == old(reader).position(),
        old(reader).bytes().len() - old(reader).position() >= 2 && r is Err ==> final(reader).position()
            == old(reader).position() + 2,
{
    if reader.remaining() < 2 {
        return Err(Error::TooShort { expected: reader.pos + 2, actual: reader.data.len() });
    }
    let len = match reader.read_u16_be() {
        Ok(v) => v as usize,
        Err(e) => {
            return Err(e);
        },
    };
    if len > reader.remaining() {
        return Err(Error::InvalidHeader(string_length_text(len, reader.remaining())));
    }
    let _ = reader.skip(len);
    Ok(())
}

/// Skip the header up to the color sections count.
fn skip_vp3_header(reader: &mut Reader) -> (r: Result<(), Error>)
    requires
        old(reader).wf(),
    ensures
        final(reader).bytes() == old(reader).bytes(),
        final(reader).wf(),
        match vp3_header_end(old(reader).bytes(), old(reader).position()) {
            Ok(p) => r is Ok && final(reader).position() == p,
            Err(e) => r matches Err(e2) && e2@ == e,
        },
{
    // Skip the producer / signature string at the start
    if let Err(e) = skip_string(reader) {
        return Err(e);
    }

    // Design metadata: dimensions and other header fields
    if reader.remaining() < 38 {
        return Err(Error::TooShort { expected: 38, actual: reader.remaining() });
    }

    // Design size fields (4x i32 = 16 bytes) + unknown bytes (4) + unknown (4)
    let _ = reader.skip(24);

    // Design notes / comments strings
    if let Err(e) = skip_string(reader) {
        return Err(e);
    }
    if let Err(e) = skip_string(reader) {
        return Err(e);
    }

    // Remaining header fields before the color sections
    if reader.remaining() >= 6 {
        let _ = reader.skip(6);
    }

    // Another potential string
    if reader.remaining() >= 2 {
        let peek = reader.peek_u16_be();
        if let Ok(len) = peek {
            if len < 1000 && (len as usize) + 2 <= reader.remaining() {
                if let Err(e) = skip_string(reader) {
                    return Err(e);
                }
            }
        }
    }

    Ok(())
}

/// The result of a stitch block decoded after the commands `prefix`.
pub open spec fn vp3_join(
    prefix: Seq<StitchCommand>,
    r: Option<(int, Seq<StitchCommand>)>,
) -> Option<(int, Seq<StitchCommand>)> {
    match r {
        Some((p, c)) => Some((p, prefix + c)),
        None => None,
    }
}

/// Decode stitch records while the position is before `end` and two bytes
/// remain; large moves (high bit set) are jumps, a zero move is a trim.
///
/// Returns `false`, and stops, at a jump whose `dy` is `i16::MIN`: its
/// negation does not fit in an `i16`.
pub fn decode_vp3_stitches(reader: &mut Reader, commands: &mut Vec<StitchCommand>, end: usize) -> (ok: bool)
    requires
        old(reader).wf(),
    ensures
        final(reader).bytes() == old(reader).bytes(),
        final(reader).wf(),
        match vp3_decode(old(reader).bytes(), old(reader).position(), end as int) {
            Some((p, c)) => ok && final(reader).position() == p && final(commands)@
                == old(commands)@ + c,
            None => !ok && final(reader).position() == vp3_decode_until_overflow(
                old(reader).bytes(),
                old(reader).position(),
                end as int,
            ).0 && final(commands)@ == old(commands)@ + vp3_decode_until_overflow(
                old(reader).bytes(),
                old(reader).position(),
                end as int,
            ).1,
        },
{
    let ghost data = reader.bytes();
    let ghost start = reader.position();
    let ghost start_cmds = commands@;
    assert(commands@ =~= start_cmds + Seq::<StitchCommand>::empty());
    while reader.pos < end && reader.remaining() >= 2
        invariant_except_break
            reader.wf(),
            reader.bytes() == data,
            data == old(reader).bytes(),
            start == old(reader).position(),
            start_cmds == old(commands)@,
            vp3_join(start_cmds, vp3_decode(data, start, end as int)) == vp3_join(
                commands@,
                vp3_decode(data, reader.position(), end as int),
            ),
            vp3_decode(data, reader.position(), end as int) is None ==> vp3_decode_until_overflow(
                data,
                start,
                end as int,
            ).0 == vp3_decode_until_overflow(data, reader.position(), end as int).0
                && start_cmds + vp3_decode_until_overflow(data, start, end as int).1 == commands@
                + vp3_decode_until_overflow(data, reader.position(), end as int).1,
        ensures
            reader.wf(),
            reader.bytes() == data,
            vp3_join(start_cmds, vp3_decode(data, start, end as int)) == Some(
                (reader.position(), commands@),
            ),
        decreases data.len() - reader.position(),
    {
        let pos = reader.pos;
        let b1 = reader.data[pos];
        let ghost before = commands@;

        // Extended coordinates: high bit set on the first byte
        if b1 >= 0x80 {
            if reader.remaining() < 4 {
                assert(commands@ + Seq::<StitchCommand>::empty() =~= commands@);
                break ;
            }
            let dx = read_i16_be(reader.data, pos);
            let dy = read_i16_be(reader.data, pos + 2);
            if dy == i16::MIN {
                assert(commands@ + Seq::<StitchCommand>::empty() =~= commands@);
                return false;
            }
            reader.pos = pos + 4;

            // Large moves are jumps
            commands.push(StitchCommand::Jump { dx, dy: -dy });
        } else {
            // One byte per coordinate
            let dx = signed_byte(reader.data[pos]);
            reader.pos = pos + 1;
            if reader.pos >= end {
                assert(commands@ + Seq::<StitchCommand>::empty() =~= commands@);
                break ;
            }
            let dy = -signed_byte(reader.data[pos + 1]);
            reader.pos = pos + 2;

            if dx == 0 && dy == 0 {
                // Zero-length stitch is a trim marker
                commands.push(StitchCommand::Trim);
            } else {
                commands.push(StitchCommand::Stitch { dx, dy });
            }
        }
        proof {
            let rest = vp3_decode(data, reader.position(), end as int);
            if rest is Some {
                let d = rest->Some_0.1;
                assert(commands@ + d =~= before + (seq![commands@.last()] + d));
            } else {
                let d = vp3_decode_until_overflow(data, reader.position(), end as int).1;
                assert(commands@ + d =~= before + (seq![commands@.last()] + d));
            }
        }
    }
    true
}

/// Read one color section: its thread color, and its stitches appended to
/// `commands` (after a color change unless `commands` is empty).
///
/// `None` where a jump's `dy` is `i16::MIN`, whose negation does not fit.
fn read_color_section(reader: &mut Reader, commands: &mut Vec<StitchCommand>) -> (r: Option<
    Result<(u8, u8, u8), Error>,
>)
    requires
        old(reader).wf(),
    ensures
        final(reader).bytes() == old(reader).bytes(),
        final(reader).wf(),
        match vp3_section(old(reader).bytes(), old(reader).position(), old(commands)@) {
            SectionOutcome::Read(p, c, color) => r == Some(Ok::<(u8, u8, u8), Error>(color))
                && final(reader).position() == p && final(commands)@ == c,
            SectionOutcome::Failed(e) => r matches Some(Err(e2)) && e2@ == e && final(commands)@
                == vp3_section_start(old(commands)@),
            SectionOutcome::Overflow => r is None,
        },
{
    let ghost data = reader.bytes();
    // Color change between sections (except first)
    if commands.len() > 0 {
        commands.push(StitchCommand::ColorChange);
    }

    // Section start: offset / position data
    if reader.remaining() < 12 {
        return Some(Err(Error::TooShort { expected: 12, actual: reader.remaining() }));
    }

    // Section offset / position data (2x i32 = 8 bytes)
    let _ = reader.skip(8);

    // Thread info string
    if let Err(e) = skip_string(reader) {
        return Some(Err(e));
    }

    // Thread color: RGB (3 bytes)
    if reader.remaining() < 3 {
        return Some(Err(Error::TooShort { expected: 3, actual: reader.remaining() }));
    }
    let r = match reader.read_u8() {
        Ok(v) => v,
        Err(e) => {
            return Some(Err(e));
        },
    };
    let g = match reader.read_u8() {
        Ok(v) => v,
        Err(e) => {
            return Some(Err(e));
        },
    };
    let b = match reader.read_u8() {
        Ok(v) => v,
        Err(e) => {
            return Some(Err(e));
        },
    };

    // Thread catalog number and description
    if let Err(e) = skip_string(reader) {
        return Some(Err(e));
    }
    if let Err(e) = skip_string(reader) {
        return Some(Err(e));
    }

    // Thread brand and further metadata
    if reader.remaining() >= 18 {
        let _ = reader.skip(18);
    }

    // Stitch data
    let stitch_byte_count = if reader.remaining() >= 4 {
        match reader.read_u32_be() {
            Ok(v) => v as usize,
            Err(e) => {
                return Some(Err(e));
            },
        }
    } else {
        return Some(Ok((r, g, b)));
    };

    if stitch_byte_count == 0 || stitch_byte_count > reader.remaining() {
        return Some(Ok((r, g, b)));
    }

    let stitch_end = reader.pos + stitch_byte_count;
    if !decode_vp3_stitches(reader, commands, stitch_end) {
        return None;
    }

    // Continue right after the stitch data
    if reader.pos < stitch_end {
        reader.pos = stitch_end;
    }

    Some(Ok((r, g, b)))
}

/// Parse a VP3 (Pfaff/Viking) file from raw bytes.
///
/// VP3 is a hierarchical format:
///   - File header with "%vsm%" magic (or similar signature)
///   - Design metadata section
///   - One or more color sections, each containing:
///     - Thread color (RGB)
///     - Stitch data block
///
/// Byte order: mixed, but length-prefixed strings and section sizes use big-endian.
/// Stitch encoding: variable-length (1 byte per coordinate for small moves,
/// 2 bytes per coordinate for large ones).
pub fn parse(data: &[u8]) -> (r: Result<(Vec<StitchCommand>, Vec<(u8, u8, u8)>), Error>)
    requires
        data@.len() <= isize::MAX,
        !(vp3_parse_spec(data@) is Overflow),
    ensures
        vp3_parse_matches(data@, r),
{
    match parse_checked(data) {
        Some(r) => r,
        None => {
            // The precondition rules this out.
            Err(Error::NoStitchData)
        },
    }
}

/// Parse a VP3 file, or `None` where `parse` would negate an `i16::MIN` jump
/// (which `parse` requires not to happen).
pub fn parse_checked(data: &[u8]) -> (r: Option<
    Result<(Vec<StitchCommand>, Vec<(u8, u8, u8)>), Error>,
>)
    requires
        data@.len() <= isize::MAX,
    ensures
        match r {
            Some(x) => vp3_parse_matches(data@, x),
            None => vp3_parse_spec(data@) is Overflow,
        },
{
    if data.len() < 20 {
        return Some(Err(Error::TooShort { expected: 20, actual: data.len() }));
    }

    let mut reader = Reader::new(data);

    // Skip the header to find the design data
    if let Err(e) = skip_vp3_header(&mut reader) {
        return Some(Err(e));
    }

    let mut colors: Vec<(u8, u8, u8)> = Vec::new();
    let mut commands: Vec<StitchCommand> = Vec::new();

    // Color sections
    let color_section_count = match reader.read_u16_be() {
        Ok(v) => v,
        Err(e) => {
            return Some(Err(e));
        },
    };
    let ghost p0 = reader.position();
    let ghost total = vp3_sections(data@, p0, color_section_count as int, Seq::empty(), Seq::empty());
    assert(vp3_parse_spec(data@) == vp3_finish(total));

    let mut k: u16 = 0;
    while k < color_section_count
        invariant_except_break
            reader.wf(),
            reader.bytes() == data@,
            k <= color_section_count,
            vp3_parse_spec(data@) == vp3_finish(total),
            total == vp3_sections(
                data@,
                reader.position(),
                color_section_count - k,
                commands@,
                colors@,
            ),
        ensures
            reader.wf(),
            reader.bytes() == data@,
            vp3_parse_spec(data@) == vp3_finish(total),
            total == (Vp3Outcome::Parsed(commands@, colors@)),
        decreases color_section_count - k,
    {
        if reader.remaining() < 4 {
            break ;
        }

        let ghost pos = reader.position();
        let ghost cmds = commands@;
        let color = match read_color_section(&mut reader, &mut commands) {
            Some(Ok(c)) => c,
            Some(Err(e)) => {
                assert(vp3_section(data@, pos, cmds) is Failed);
                assert(total == Vp3Outcome::Failed(e@));
                return Some(Err(e));
            },
            None => {
                assert(total == Vp3Outcome::Overflow);
                return None;
            },
        };
        colors.push(color);
        k = k + 1;
    }

    if commands.len() == 0 {
        return Some(Err(Error::NoStitchData));
    }

    if commands[commands.len() - 1] != StitchCommand::End {
        commands.push(StitchCommand::End);
    }

    Some(Ok((commands, colors)))
}

/// Parse a VP3 file and resolve to a renderable design.
pub fn parse_and_resolve(data: &[u8]) -> (r: Result<ResolvedDesign, Error>)
    requires
        data@.len() <= isize::MAX,
        !(vp3_parse_spec(data@) is Overflow),
    ensures
        match vp3_parse_spec(data@) {
            Vp3Outcome::Parsed(c, colors) => crate::resolve::resolves_to(c, colors, r),
            Vp3Outcome::Failed(e) => r matches Err(e2) && e2@ == e,
            Vp3Outcome::Overflow => false,
        },
{
    let (commands, colors) = match parse(data) {
        Ok(v) => v,
        Err(e) => {
            return Err(e);
        },
    };
    crate::resolve::resolve(commands.as_slice(), colors)
}

} // verus!
