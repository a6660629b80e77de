//! What an animation can change, and how it moves between two values.

use vstd::prelude::*;

verus! {

/// The property of a primitive that an animation drives.
#[allow(non_camel_case_types)]
#[derive(PartialEq, Eq, Structural, Debug, Copy, Clone)]
pub enum AnimationProperty {
    X,
    Y,
    Z,
    RADIUS,
}

/// The shape of the way from the start value to the end value.
#[allow(non_camel_case_types)]
#[derive(PartialEq, Eq, Structural, Debug, Copy, Clone)]
pub enum Easing {
    LINEAR,
}

} // verus!
