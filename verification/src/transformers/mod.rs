//! The writers of the three kinds of shape: paths, ellipses and raster images.
pub mod ellipse;
pub mod path;
pub mod raster_image;
