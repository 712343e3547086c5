//! Reading ESRI Shapefiles, GeoJSON, GML and Mapbox vector tiles into one
//! shared model: geometries, shape records and attribute values.
//!
//! Coordinates and numbers are held exactly as the source delivered them
//! (IEEE-754 bit patterns read from binary files, or the decimal text found in
//! text files), so that every decoding step can be stated and proved over
//! plain integers, bytes and characters.
pub mod error;
pub mod text;
pub mod number;
pub mod binary_reader;
pub mod models;
pub mod parsers;
pub mod mvt_reader;
pub mod gml_model;
pub mod gml_reader;
pub mod geojson_reader;
pub mod reader;

pub use crate::binary_reader::BinaryReader;
pub use crate::error::ShapefileError;
pub use crate::geojson_reader::{GeoJsonReader, JsonValue};
pub use crate::gml_reader::GmlReader;
pub use crate::models::attribute::{AttributeValue, Attributes, FieldDef, FieldType};
pub use crate::models::bbox::BoundingBox;
pub use crate::models::crs::Crs;
pub use crate::models::geometry::{
    Geometry, MultiPoint, Point, PointM, PointZ, Polygon, PolygonM, PolygonZ, Polyline, PolylineM,
    PolylineZ, Ring,
};
pub use crate::models::record::ShapeRecord;
pub use crate::mvt_reader::{LayerFilter, MvtReader, TileCoord};
pub use crate::number::Number;
pub use crate::parsers::shp_parser::ShapeType;
pub use crate::reader::ShapefileReader;
