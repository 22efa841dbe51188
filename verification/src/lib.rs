//! Integer core of a palette-quantising pixel-art converter: the ordered
//! dithering (Bayer) threshold matrix; the decoding and encoding of image
//! files, the reading of RGB rasters into palette entries and the
//! nearest-neighbour down-scaling step; and the choice and naming of input and
//! output files.

pub mod bayer;
pub mod file_names;
pub mod raster;
pub mod effects;
