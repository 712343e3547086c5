pub mod attribute;
pub mod bbox;
pub mod crs;
pub mod geometry;
pub mod record;
