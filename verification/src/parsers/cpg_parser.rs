//! The .cpg companion file: the label of the character encoding that the
//! .dbf text fields use.
use crate::error::ShapefileError;
use crate::parsers::dbf_parser::{resolve_label, resolved_label};
use crate::text::{chars_of, string_from_chars, trim_chars, trim_seq, utf8_to_string};
use vstd::prelude::*;
use vstd::utf8::{decode_utf8, encode_utf8, valid_utf8};
use vstd::string::StringSliceAdditionalSpecFns;

verus! {

/// The label that a code page file chooses: its UTF-8 text, trimmed, when
/// encoding_rs knows it; `Shift_JIS` otherwise.
pub open spec fn cpg_label_of(c: Seq<u8>) -> Seq<u8> {
    resolve_label(Some(encode_utf8(trim_seq(decode_utf8(c)))))
}

/// Reads the encoding label of a .cpg file image.
pub struct CpgParser {
    bytes: Vec<u8>,
}

impl CpgParser {
    /// The file image being read.
    pub closed spec fn bytes(&self) -> Seq<u8> {
        self.bytes@
    }

    /// A parser over the bytes of a .cpg file.
    pub fn new(cpg: Vec<u8>) -> (r: Self)
        ensures
            r.bytes() == cpg@,
    {
        CpgParser { bytes: cpg }
    }

    /// The file's text with surrounding whitespace removed: the label.
    pub fn label(&self) -> (r: Result<String, ShapefileError>)
        ensures
            r is Ok <==> valid_utf8(self.bytes()),
            r matches Ok(l) ==> l@ == trim_seq(decode_utf8(self.bytes())),
            r matches Err(e) ==> e is Io,
    {
        match utf8_to_string(self.bytes.as_slice()) {
            Ok(content) => {
                let t = trim_chars(&chars_of(content.as_str()));
                Ok(string_from_chars(t.as_slice()))
            },
            Err(_) => Err(ShapefileError::Io("stream did not contain valid UTF-8".to_string())),
        }
    }

    /// The label that the attribute table's text is decoded with: the
    /// file's label when encoding_rs knows it, `Shift_JIS` otherwise.
    pub fn parse(&mut self) -> (r: Result<Vec<u8>, ShapefileError>)
        ensures
            final(self).bytes() == old(self).bytes(),
            r is Ok <==> valid_utf8(old(self).bytes()),
            r matches Ok(l) ==> l@ == cpg_label_of(old(self).bytes()) && crate::parsers::dbf_parser::spec_label_is_known(l@),
            r matches Err(e) ==> e is Io,
    {
        let label = self.label()?;
        Ok(resolved_label(Some(label.as_str().as_bytes())))
    }
}

} // verus!
