use vstd::prelude::*;

verus! {

/// Errors that can occur when reading or processing spatial data.
#[derive(Debug, Clone, PartialEq, Eq)]
pub enum ShapefileError {
    /// Underlying I/O failure, with its message.
    Io(String),
    /// A required companion file (.shp or .dbf) was not found.
    MissingFile { path: String },
    /// The .shp/.shx header holds a file code other than 9994.
    InvalidFileCode { actual: i32 },
    /// The .shp header holds a version other than 1000.
    InvalidVersion { actual: i32 },
    /// The file data is corrupted or truncated.
    CorruptedFile { reason: String },
    /// An unrecognized shape type code was encountered.
    UnsupportedShapeType(i32),
    /// Parsed geometry is structurally invalid.
    InvalidGeometry { reason: String },
    /// Character decoding of a DBF field failed.
    EncodingError { field: String, reason: String },
    /// The requested attribute field does not exist.
    FieldNotFound(String),
    /// `describe()` was asked for a field that holds no numbers.
    DescribeOnNonNumericField { field: String, field_type: String },
    /// An attribute value's type does not match the expected field type.
    TypeMismatch { field: String, expected: String, actual: String },
    /// JSON text could not be parsed or written; holds the message.
    GeoJsonError(String),
    /// The GeoJSON input is structurally invalid or unsupported.
    InvalidGeoJson { reason: String },
    /// Protobuf decoding of a vector tile failed; holds the message.
    MvtDecodeError(String),
    /// The vector tile is structurally invalid or unsupported.
    InvalidMvt { reason: String },
    /// The XML layer of a GML document could not be read; holds the message.
    GmlXmlError(String),
    /// The GML input is structurally invalid or unsupported.
    InvalidGml { reason: String },
}

} // verus!
