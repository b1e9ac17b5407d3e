use vstd::prelude::*;

verus! {

/// The Brother PEC thread palette (65 entries; entry 0 stands for an unknown thread).
pub const PEC_PALETTE: [(u8, u8, u8); 65] = [
    (0, 0, 0),
    (14, 31, 124),
    (10, 85, 163),
    (0, 135, 119),
    (75, 107, 175),
    (237, 23, 31),
    (209, 92, 0),
    (145, 54, 151),
    (228, 154, 203),
    (145, 95, 172),
    (158, 214, 125),
    (232, 169, 0),
    (254, 186, 53),
    (255, 255, 0),
    (112, 188, 31),
    (186, 152, 0),
    (168, 168, 168),
    (125, 111, 0),
    (255, 255, 179),
    (79, 85, 86),
    (0, 0, 0),
    (11, 61, 145),
    (119, 1, 118),
    (41, 49, 51),
    (42, 19, 1),
    (246, 74, 138),
    (178, 118, 36),
    (252, 187, 197),
    (254, 55, 15),
    (240, 240, 240),
    (106, 28, 138),
    (168, 221, 196),
    (37, 132, 187),
    (254, 179, 67),
    (255, 243, 107),
    (208, 166, 96),
    (209, 84, 0),
    (102, 186, 73),
    (19, 74, 70),
    (135, 135, 135),
    (216, 204, 198),
    (67, 86, 7),
    (253, 217, 222),
    (249, 147, 188),
    (0, 56, 34),
    (178, 175, 212),
    (104, 106, 176),
    (239, 227, 185),
    (247, 56, 102),
    (181, 75, 100),
    (19, 43, 26),
    (199, 1, 86),
    (254, 158, 50),
    (168, 222, 235),
    (0, 103, 62),
    (78, 41, 144),
    (47, 126, 32),
    (255, 204, 204),
    (255, 217, 17),
    (9, 91, 166),
    (240, 249, 112),
    (227, 243, 91),
    (255, 153, 0),
    (255, 240, 141),
    (255, 200, 200),
];

/// The thread color of PEC palette index `idx`; indices past the table take
/// its last entry.
pub open spec fn pec_color(idx: u8) -> (u8, u8, u8) {
    if idx < 64 {
        PEC_PALETTE@[idx as int]
    } else {
        PEC_PALETTE@[64]
    }
}

/// The PEC palette color of `idx`, clamped to the last entry.
pub fn pec_palette_color(idx: u8) -> (c: (u8, u8, u8))
    ensures
        c == pec_color(idx),
{
    let i: usize = if idx < 64 {
        idx as usize
    } else {
        64
    };
    PEC_PALETTE[i]
}

/// The color given to thread `i` of a format that stores no colors: the PEC
/// palette from entry 1 on, starting over after its last entry.
pub open spec fn default_color(i: int) -> (u8, u8, u8) {
    PEC_PALETTE@[(i % 64) + 1]
}

/// The default colors for a command list: one per thread, that is one more
/// than its color changes.
pub open spec fn default_color_list(cmds: Seq<crate::types::StitchCommand>) -> Seq<(u8, u8, u8)> {
    Seq::new(
        (crate::resolve::color_change_count(cmds) + 1) as nat,
        |i: int| default_color(i),
    )
}

/// `count` colors for a format that stores no thread colors.
pub fn default_colors(count: usize) -> (v: Vec<(u8, u8, u8)>)
    ensures
        v@.len() == count,
        forall|i: int| 0 <= i < count ==> #[trigger] v@[i] == default_color(i),
{
    let mut v: Vec<(u8, u8, u8)> = Vec::new();
    let mut i: usize = 0;
    while i < count
        invariant
            i <= count,
            v@.len() == i,
            forall|k: int| 0 <= k < i ==> #[trigger] v@[k] == default_color(k),
        decreases count - i,
    {
        v.push(PEC_PALETTE[(i % 64) + 1]);
        i = i + 1;
    }
    v
}

} // verus!
