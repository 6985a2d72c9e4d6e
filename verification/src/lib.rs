//! A verified ray-sphere intersection core over fixed-point coordinates.
//!
//! Every coordinate, radius and ray parameter is an integer count of
//! `1/SCALE` world units, so all geometry is exact integer arithmetic and
//! every intersection routine carries a proved contract.

pub mod fixed;
pub mod ray;
pub mod scene;
pub mod sphere;
pub mod vec3;
