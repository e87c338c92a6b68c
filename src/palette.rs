use vstd::prelude::*;

verus! {

/// The color ramp, from dark (heat 0) to white (heat 35), as red, green and
/// blue levels. Some neighbouring levels share a color.
pub open spec fn heat_color(heat: usize) -> (u8, u8, u8) {
    match heat {
        0 => (7, 7, 7),
        1 => (31, 7, 7),
        2 => (47, 15, 7),
        3 => (71, 15, 7),
        4 => (81, 23, 7),
        5 => (103, 31, 7),
        6 => (119, 31, 7),
        7 => (143, 39, 7),
        8 => (159, 47, 7),
        9 => (175, 63, 7),
        10 => (191, 71, 7),
        11 => (199, 71, 7),
        12 => (223, 79, 7),
        13 => (223, 87, 7),
        14 => (223, 87, 7),
        15 => (215, 95, 7),
        16 => (215, 103, 15),
        17 => (207, 111, 15),
        18 => (207, 119, 15),
        19 => (207, 127, 15),
        20 => (207, 135, 23),
        21 => (199, 135, 23),
        22 => (199, 143, 23),
        23 => (199, 151, 31),
        24 => (191, 159, 31),
        25 => (191, 159, 31),
        26 => (191, 167, 39),
        27 => (191, 167, 39),
        28 => (191, 175, 47),
        29 => (183, 175, 47),
        30 => (183, 183, 47),
        31 => (183, 183, 55),
        32 => (207, 207, 111),
        33 => (223, 223, 159),
        34 => (239, 239, 199),
        _ => (255, 255, 255),
    }
}

/// The color of a heat level.
pub fn color_of(heat: usize) -> (r: (u8, u8, u8))
    requires
        heat <= 35,
    ensures
        r == heat_color(heat),
{
    match heat {
        0 => (7, 7, 7),
        1 => (31, 7, 7),
        2 => (47, 15, 7),
        3 => (71, 15, 7),
        4 => (81, 23, 7),
        5 => (103, 31, 7),
        6 => (119, 31, 7),
        7 => (143, 39, 7),
        8 => (159, 47, 7),
        9 => (175, 63, 7),
        10 => (191, 71, 7),
        11 => (199, 71, 7),
        12 => (223, 79, 7),
        13 => (223, 87, 7),
        14 => (223, 87, 7),
        15 => (215, 95, 7),
        16 => (215, 103, 15),
        17 => (207, 111, 15),
        18 => (207, 119, 15),
        19 => (207, 127, 15),
        20 => (207, 135, 23),
        21 => (199, 135, 23),
        22 => (199, 143, 23),
        23 => (199, 151, 31),
        24 => (191, 159, 31),
        25 => (191, 159, 31),
        26 => (191, 167, 39),
        27 => (191, 167, 39),
        28 => (191, 175, 47),
        29 => (183, 175, 47),
        30 => (183, 183, 47),
        31 => (183, 183, 55),
        32 => (207, 207, 111),
        33 => (223, 223, 159),
        34 => (239, 239, 199),
        _ => (255, 255, 255),
    }
}

} // verus!
