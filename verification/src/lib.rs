//! Names for image files, composed from the capture date and from what the
//! image shows or where it was taken.

pub mod ai;
pub mod batch;
pub mod cache;
pub mod case;
pub mod exif;
pub mod gps;
pub mod numeral;
pub mod text;
pub mod utils;
