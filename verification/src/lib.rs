//! Conversion logic for turning BambuStudio laser scenes into LightBurn projects.
pub mod assoc;
pub mod constants;
pub mod converter;
pub mod json;
pub mod text;
pub mod types;
pub mod utils;
pub mod path_parser;
pub mod transformers;
pub mod scene_builder;
pub mod subpath_converter;
pub mod xml_builder;
pub mod visitors;
