//! A few fixed places in the city, for centering the map.

use vstd::prelude::*;

use crate::vehicle::Position;

verus! {

/// The city's main train station, the map's home position.
pub fn wroclaw_glowny() -> (p: Position)
    ensures
        p.lat_udeg == 51_099_160,
        p.lon_udeg == 17_036_640,
{
    Position { lat_udeg: 51_099_160, lon_udeg: 17_036_640 }
}

} // verus!
