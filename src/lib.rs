//! Batch conversion of raster images into resized copies and block-compressed
//! texture containers: the decisions of the conversion pipeline, verified.

pub mod text;
pub mod paths;
pub mod filetype;
pub mod imagedata;
pub mod dds;
pub mod pipeline;
pub mod dispatch;
pub mod pathtree;
pub mod logging;
pub mod config;
pub mod laws;
pub mod cli;
pub mod decode;
