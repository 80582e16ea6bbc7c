//! Planar geometry algorithms over exact integer coordinates: the signed
//! area of a linear ring (shoelace formula) and the net area of a polygon
//! with holes.

pub mod area;
pub mod types;
