//! Navigation-mesh baking over a tile grid and the bookkeeping of path
//! requests for a crowd of agents walking on it.

pub mod agents;
pub mod corner_set;
pub mod corners;
pub mod generate;
pub mod grid;
pub mod laws;
pub mod mesh;
pub mod modes;
pub mod navmesh;
pub mod scan;
pub mod stats;
