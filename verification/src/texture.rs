//! Textures: the colour of a surface at a point.

use vstd::prelude::*;
use crate::fixed::Fixed;
use crate::vec3::Vec3;

verus! {

/// A colour for every point of a surface.
pub trait Texture {
    /// The colour at texture coordinates `(u, v)` and point `p`.
    spec fn spec_value(&self, u: Fixed, v: Fixed, p: &Vec3) -> Vec3;

    /// The colour at texture coordinates `(u, v)` and point `p`.
    fn value(&self, u: Fixed, v: Fixed, p: &Vec3) -> (c: Vec3)
        ensures
            c == self.spec_value(u, v, p),
    ;
}

/// The same colour everywhere.
#[derive(Clone, Copy, Debug, PartialEq, Eq, Structural)]
pub struct ConstantTexture {
    pub color: Vec3,
}

impl ConstantTexture {
    /// The texture whose colour has the given red, green and blue parts.
    pub fn new(r: Fixed, g: Fixed, b: Fixed) -> (t: ConstantTexture)
        ensures
            t.color == Vec3::new(r, g, b),
    {
        ConstantTexture { color: Vec3::new(r, g, b) }
    }
}

impl Texture for ConstantTexture {
    open spec fn spec_value(&self, u: Fixed, v: Fixed, p: &Vec3) -> Vec3 {
        self.color
    }

    fn value(&self, u: Fixed, v: Fixed, p: &Vec3) -> (c: Vec3) {
        self.color
    }
}

} // verus!
