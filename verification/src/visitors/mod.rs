//! The passes over the scene that write the project's layers and shapes.
pub mod cut_setting;
pub mod shape;
