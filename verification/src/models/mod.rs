//! Binary model and map formats.
pub mod assets_bin;
pub mod forest;
pub mod forest_layout;
pub mod layout;
pub mod material;
pub mod merged_models;
pub mod models_bin_layout;
pub mod skel_ext;
pub mod skel_ext_layout;
pub mod space;
pub mod space_layout;
pub mod terrain;
pub mod terrain_layout;
pub mod transform;
pub mod user_object_xml;
pub mod visual;
