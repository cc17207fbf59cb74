//! A verified reader for a small line-oriented geometry format: vertex
//! positions, vertex normals, face indices and a uniform scale.

pub mod literal;
pub mod scan;
pub mod model;
pub mod obj;
pub mod write;
pub mod round_trip;
pub mod controls;
