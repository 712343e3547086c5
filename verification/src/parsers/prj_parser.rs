//! The .prj companion file: the coordinate reference system as WKT text.
use crate::error::ShapefileError;
use crate::models::crs::Crs;
use crate::text::utf8_to_string;
use vstd::prelude::*;
use vstd::utf8::{decode_utf8, valid_utf8};

verus! {

/// Reads the WKT text of a .prj file image.
pub struct PrjParser {
    bytes: Vec<u8>,
}

impl PrjParser {
    /// The file image being read.
    pub closed spec fn bytes(&self) -> Seq<u8> {
        self.bytes@
    }

    /// A parser over the bytes of a .prj file.
    pub fn new(prj: Vec<u8>) -> (r: Self)
        ensures
            r.bytes() == prj@,
    {
        PrjParser { bytes: prj }
    }

    /// The whole file as the CRS's WKT text; the file must be UTF-8.
    pub fn parse(&mut self) -> (r: Result<Crs, ShapefileError>)
        ensures
            final(self).bytes() == old(self).bytes(),
            r is Ok <==> valid_utf8(old(self).bytes()),
            r matches Ok(c) ==> c.wkt@ == decode_utf8(old(self).bytes()),
            r matches Err(e) ==> e is Io,
    {
        match utf8_to_string(self.bytes.as_slice()) {
            Ok(wkt) => Ok(Crs { wkt }),
            Err(_) => Err(ShapefileError::Io("stream did not contain valid UTF-8".to_string())),
        }
    }
}

} // verus!
