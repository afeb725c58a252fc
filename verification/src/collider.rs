//! Physics attributes derived from an object's custom properties.

use vstd::prelude::*;
use crate::properties::{find_property, property_value, Property, PropertyValue};
use crate::scalar::FloatBits;

verus! {

/// Marks an entity that other bodies can collide with.
#[derive(Clone, Copy, Debug, Default, PartialEq, Eq, Structural)]
pub struct TiledColliderObject;

/// How the physics engine moves a body.
#[derive(Clone, Copy, Debug, PartialEq, Eq, Structural)]
pub enum RigidBodyKind {
    Static,
    Kinematic,
    Dynamic,
}

/// The extent of a rectangular collider.
#[derive(Clone, Copy, Debug, PartialEq, Eq, Structural)]
pub enum Hitbox {
    /// Taken from the object's `hitbox` property.
    Authored { width: FloatBits, height: FloatBits },
    /// The native tile size of the object's tileset, in pixels.
    TileSized { tile_width: u32, tile_height: u32 },
}

/// The body kind that a `collider_type` value names; anything but the three
/// known names, and anything that is not a string, gives `Static`.
pub open spec fn body_kind_of(value: Option<PropertyValue>) -> RigidBodyKind {
    match value {
        Some(PropertyValue::StringValue(s)) => if s@ == "Dynamic"@ {
            RigidBodyKind::Dynamic
        } else if s@ == "Kinematic"@ {
            RigidBodyKind::Kinematic
        } else {
            RigidBodyKind::Static
        },
        _ => RigidBodyKind::Static,
    }
}

/// The number that a property holds, if it is a float property.
pub open spec fn float_of(value: Option<PropertyValue>) -> Option<FloatBits> {
    match value {
        Some(PropertyValue::FloatValue(f)) => Some(f),
        _ => None,
    }
}

/// The `width` and `height` found in a `hitbox` class property. A `hitbox`
/// of another type counts as absent, and so does a member that is no float.
pub open spec fn authored_extent(value: Option<PropertyValue>) -> (
    Option<FloatBits>,
    Option<FloatBits>,
) {
    match value {
        Some(PropertyValue::ClassValue { properties, .. }) => (
            float_of(property_value(properties@, "width"@)),
            float_of(property_value(properties@, "height"@)),
        ),
        _ => (None, None),
    }
}

/// The hitbox for an authored extent: both members as given, a lone member
/// for both sides, and the tile size when neither is there.
pub open spec fn hitbox_of(
    extent: (Option<FloatBits>, Option<FloatBits>),
    tile_width: u32,
    tile_height: u32,
) -> Hitbox {
    match extent {
        (Some(w), Some(h)) => Hitbox::Authored { width: w, height: h },
        (Some(w), None) => Hitbox::Authored { width: w, height: w },
        (None, Some(h)) => Hitbox::Authored { width: h, height: h },
        (None, None) => Hitbox::TileSized { tile_width, tile_height },
    }
}

/// What `extract_collider` returns for a property list.
pub open spec fn collider_of(properties: Seq<Property>, tile_width: u32, tile_height: u32) -> (
    RigidBodyKind,
    Hitbox,
) {
    (
        body_kind_of(property_value(properties, "collider_type"@)),
        hitbox_of(authored_extent(property_value(properties, "hitbox"@)), tile_width, tile_height),
    )
}

fn read_float(value: Option<&PropertyValue>) -> (r: Option<FloatBits>)
    ensures
        r == float_of(
            match value {
                Some(v) => Some(*v),
                None => None,
            },
        ),
{
    match value {
        Some(PropertyValue::FloatValue(f)) => Some(*f),
        _ => None,
    }
}

/// Derives the rigid-body kind and the hitbox of an object from its custom
/// properties. `tile_width` and `tile_height` are the native tile size of
/// the tileset that the object's tile belongs to.
///
/// A property of an unexpected type is treated as absent; nothing here fails.
pub fn extract_collider(properties: &Vec<Property>, tile_width: u32, tile_height: u32) -> (r: (
    RigidBodyKind,
    Hitbox,
))
    ensures
        r == collider_of(properties@, tile_width, tile_height),
{
    let body = match find_property(properties, "collider_type") {
        Some(PropertyValue::StringValue(s)) => {
            let dynamic = "Dynamic".to_owned();
            let kinematic = "Kinematic".to_owned();
            if *s == dynamic {
                RigidBodyKind::Dynamic
            } else if *s == kinematic {
                RigidBodyKind::Kinematic
            } else {
                RigidBodyKind::Static
            }
        },
        _ => RigidBodyKind::Static,
    };
    let extent = match find_property(properties, "hitbox") {
        Some(PropertyValue::ClassValue { property_type: _, properties: members }) => (
            read_float(find_property(members, "width")),
            read_float(find_property(members, "height")),
        ),
        _ => (None, None),
    };
    let hitbox = match extent {
        (Some(w), Some(h)) => Hitbox::Authored { width: w, height: h },
        (Some(w), None) => Hitbox::Authored { width: w, height: w },
        (None, Some(h)) => Hitbox::Authored { width: h, height: h },
        (None, None) => Hitbox::TileSized { tile_width, tile_height },
    };
    (body, hitbox)
}

} // verus!
