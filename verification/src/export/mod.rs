//! Rules behind the exported files.
pub mod barrels;
pub mod camos;
pub mod colors;
pub mod context;
pub mod hulls;
pub mod materials;
pub mod mounts;
pub mod paths;
pub mod pbr;
pub mod pixels;
pub mod placements;
pub mod raw_dds;
pub mod ship;
pub mod ships;
pub mod skel_ext_candidates;
pub mod sub_models;
pub mod tangents;
pub mod texture;
pub mod texture_names;
pub mod texture_set;
pub mod tiledland;
pub mod timestamp;
