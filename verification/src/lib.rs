//! A Monte Carlo path tracer whose arithmetic is carried out in saturating
//! fixed-point numbers, so that every intersection test, density and radiance
//! estimate is an exact function of its inputs and of the uniform samples drawn.
//!
//! - [`fixed`], [`trig`], [`vec3`], [`ray`]: numbers, angles, vectors, rays.
//! - [`hit`], [`rect`], [`sphere`], [`cube`], [`shape`], [`scene`]: what a ray
//!   hits, and which of several hits is the nearest.
//! - [`onb`], [`sampling`], [`pdf`]: frames, uniform samples, and densities
//!   over directions.
//! - [`texture`], [`material`]: how surfaces scatter and emit.
//! - [`integrator`]: the radiance estimator, which weighs directions toward
//!   the lights against directions that the material proposes.
//! - [`render`]: from estimates to the bytes of a pixel.
//! - [`on_sphere`], [`hemisphere`], [`bent`], [`moved`]: what rounding can
//!   and cannot do to a sphere's hit point, to a direction of the cosine
//!   density and to the length of a bent direction, and why a moved shape is
//!   the shape placed elsewhere.
//! - [`cornell`]: a box scene for the estimator.
//! - [`sky`], [`plain`]: a sky, and a plain renderer under it with a scene
//!   of many spheres.
//!
//! Chance enters in one place only, the private function that draws 32
//! uniform bits. Every function that needs chance has a twin or a core that
//! takes the uniform numbers as arguments and is specified exactly; the
//! functions that draw say what holds of every outcome.

pub mod fixed;
pub mod trig;
pub mod vec3;
pub mod ray;
pub mod hit;
pub mod rect;
pub mod sphere;
pub mod cube;
pub mod shape;
pub mod onb;
pub mod sampling;
pub mod pdf;
pub mod texture;
pub mod material;
pub mod scene;
pub mod integrator;
pub mod render;
pub mod cornell;
pub mod sky;
pub mod plain;
pub mod on_sphere;
pub mod hemisphere;
pub mod moved;
pub mod bent;
