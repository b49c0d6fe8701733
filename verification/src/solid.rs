//! The dimensions of the solid that a silhouette is lifted into.
//!
//! Every snowflake carries the same mount: the silhouette is extruded, a boss
//! is fused to it, and a socket that takes a cylindrical magnet is cut last,
//! through whatever stands in its place.

use crate::measure::Length;
use crate::measure::Ratio;
use vstd::prelude::*;

verus! {

/// Height of the magnet, in thousandths.
pub const MAGNET_HEIGHT_THOUSANDTHS: u64 = 2000;

/// Diameter of the magnet, in thousandths.
pub const MAGNET_WIDTH_THOUSANDTHS: u64 = 7000;

/// What the extrusion is taller than the magnet, in thousandths.
pub const COVER_THOUSANDTHS: u64 = 2000;

/// An upright cylinder, centred on the vertical axis and then raised by
/// `lift`.
#[derive(Clone, Copy, Debug, PartialEq, Eq, Structural)]
pub struct Cylinder {
    pub height: Length,
    pub radius: Length,
    pub lift: Length,
}

/// The slab that the silhouette becomes: extruded upwards to `height`, then
/// lowered by `drop`.
#[derive(Clone, Copy, Debug, PartialEq, Eq, Structural)]
pub struct Extrusion {
    pub height: Length,
    pub drop: Length,
}

/// The foot that is fused to the slab: the magnet's cylinder, scaled by
/// `lateral` across and by `vertical` along the axis, then lowered by `drop`.
#[derive(Clone, Copy, Debug, PartialEq, Eq, Structural)]
pub struct Boss {
    pub magnet: Cylinder,
    pub lateral: Ratio,
    pub vertical: Ratio,
    pub drop: Length,
}

/// The magnet: as high as a magnet is, half its width in radius, and raised
/// by half its height, so that it stands on the plane of the silhouette.
pub open spec fn magnet_model() -> Cylinder {
    Cylinder {
        height: Length { thousandths: MAGNET_HEIGHT_THOUSANDTHS },
        radius: Length { thousandths: (MAGNET_WIDTH_THOUSANDTHS / 2) as u64 },
        lift: Length { thousandths: (MAGNET_HEIGHT_THOUSANDTHS / 2) as u64 },
    }
}

/// The slab: higher than the magnet by the cover, and lowered by half its
/// height, so that the plane of the silhouette cuts it in the middle.
pub open spec fn extrusion_model() -> Extrusion {
    Extrusion {
        height: Length { thousandths: (MAGNET_HEIGHT_THOUSANDTHS + COVER_THOUSANDTHS) as u64 },
        drop: Length {
            thousandths: ((MAGNET_HEIGHT_THOUSANDTHS + COVER_THOUSANDTHS) / 2) as u64,
        },
    }
}

/// The boss: the magnet, 1.4 times as wide and twice as high, lowered by the
/// magnet's height.
pub open spec fn boss_model() -> Boss {
    Boss {
        magnet: magnet_model(),
        lateral: Ratio { numerator: 7, denominator: 5 },
        vertical: Ratio { numerator: 2, denominator: 1 },
        drop: Length { thousandths: MAGNET_HEIGHT_THOUSANDTHS },
    }
}

/// The cylinder of the magnet. It serves twice: scaled up as the boss, and as
/// it is as the socket.
pub fn magnet() -> (cylinder: Cylinder)
    ensures
        cylinder == magnet_model(),
        cylinder.height.thousandths == MAGNET_HEIGHT_THOUSANDTHS,
        2 * cylinder.radius.thousandths == MAGNET_WIDTH_THOUSANDTHS,
        2 * cylinder.lift.thousandths == cylinder.height.thousandths,
{
    Cylinder {
        height: Length { thousandths: MAGNET_HEIGHT_THOUSANDTHS },
        radius: Length { thousandths: MAGNET_WIDTH_THOUSANDTHS / 2 },
        lift: Length { thousandths: MAGNET_HEIGHT_THOUSANDTHS / 2 },
    }
}

/// The slab that the silhouette is extruded to. It spans as far below the
/// plane of the silhouette as above it.
pub fn extrusion() -> (slab: Extrusion)
    ensures
        slab == extrusion_model(),
        slab.height.thousandths == magnet_model().height.thousandths + 2
            * crate::measure::THOUSANDTHS_PER_UNIT,
        2 * slab.drop.thousandths == slab.height.thousandths,
{
    let height: u64 = MAGNET_HEIGHT_THOUSANDTHS + COVER_THOUSANDTHS;
    Extrusion { height: Length { thousandths: height }, drop: Length { thousandths: height / 2 } }
}

/// The boss that is fused to the slab before the socket is cut.
pub fn boss() -> (foot: Boss)
    ensures
        foot == boss_model(),
        foot.magnet == magnet_model(),
        foot.drop == magnet_model().height,
{
    Boss {
        magnet: magnet(),
        lateral: Ratio { numerator: 7, denominator: 5 },
        vertical: Ratio { numerator: 2, denominator: 1 },
        drop: Length { thousandths: MAGNET_HEIGHT_THOUSANDTHS },
    }
}

} // verus!
