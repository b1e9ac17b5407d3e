use vstd::prelude::*;

verus! {

/// The Janome thread palette; a JEF color table stores indices into it.
pub const JEF_PALETTE: [(u8, u8, u8); 79] = [
    (0, 0, 0),
    (0, 0, 0),
    (255, 255, 255),
    (255, 255, 23),
    (255, 102, 0),
    (47, 89, 51),
    (35, 115, 54),
    (101, 194, 200),
    (171, 90, 150),
    (246, 105, 160),
    (255, 0, 0),
    (177, 112, 78),
    (11, 47, 132),
    (228, 195, 93),
    (72, 26, 5),
    (172, 156, 199),
    (252, 242, 148),
    (249, 153, 183),
    (250, 179, 129),
    (201, 164, 128),
    (151, 5, 51),
    (160, 184, 204),
    (127, 194, 28),
    (229, 229, 229),
    (136, 155, 155),
    (152, 214, 189),
    (178, 225, 227),
    (54, 139, 160),
    (79, 131, 171),
    (56, 106, 145),
    (7, 22, 80),
    (249, 153, 162),
    (249, 103, 107),
    (227, 49, 31),
    (226, 161, 136),
    (181, 148, 116),
    (228, 207, 153),
    (255, 203, 0),
    (225, 173, 212),
    (195, 0, 126),
    (128, 0, 75),
    (84, 5, 113),
    (177, 5, 37),
    (202, 224, 192),
    (137, 152, 86),
    (92, 148, 26),
    (0, 49, 20),
    (93, 174, 148),
    (76, 191, 143),
    (0, 119, 114),
    (89, 91, 97),
    (255, 255, 242),
    (177, 88, 24),
    (203, 138, 7),
    (152, 108, 128),
    (152, 105, 45),
    (77, 52, 25),
    (76, 51, 11),
    (51, 32, 10),
    (82, 58, 151),
    (13, 33, 126),
    (30, 119, 172),
    (178, 221, 83),
    (243, 54, 137),
    (222, 100, 158),
    (152, 65, 97),
    (76, 86, 18),
    (76, 136, 31),
    (228, 222, 121),
    (203, 138, 26),
    (203, 162, 28),
    (255, 152, 5),
    (252, 178, 87),
    (255, 229, 5),
    (240, 51, 31),
    (26, 132, 45),
    (56, 108, 174),
    (227, 196, 180),
    (227, 172, 129),
];

} // verus!
