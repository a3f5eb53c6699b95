//! A path tracer over fixed-point reals.
//!
//! Every coordinate, colour channel and ray parameter is a [`fixed::Fixed`]:
//! a signed count of 2^-24 units that saturates at `INF` and `NEG_INF`. All
//! geometry, materials, textures, the bounding-volume hierarchy and the
//! tiled renderer are stated and proved over that arithmetic, so that every
//! result is a function of the inputs and of the random words that were
//! drawn, on every machine.
//!
//! The scene is a tree of [`hittable::Hittable`] values that share their
//! parts through `Arc`. A hit test without fog has one outcome,
//! `spec_hit`; with fog the outcomes are those that `can_hit` allows. The
//! module [`closest`] relates the scan of a list to the search of the
//! hierarchy over the same objects.
//!
//! An image is rendered tile by tile. [`camera::Camera::render`] does so in
//! one thread; [`tiles::TileQueue`] keeps the books for workers that render
//! tiles side by side, so that every tile is written once whatever the
//! limit on the tiles in work is.
//!
//! Scenes should keep their coordinates within a few thousand units:
//! products of coordinates are rounded to 2^-24 and clamped at about
//! 5 * 10^11.
#![allow(non_camel_case_types)]
#![allow(non_upper_case_globals)]

pub mod fixed;
pub mod raytracer;
pub mod trig;
pub mod vec3;
pub mod interval;
pub mod ray;
pub mod aabb;
pub mod perlin;
pub mod error;
pub mod texture;
pub mod material;
pub mod hittable;
pub mod sphere;
pub mod quad;
pub mod hittable_list;
pub mod con_medium;
pub mod bvh;
pub mod color;
pub mod camera;
pub mod closest;
pub mod tiles;
