//! Reading fixed-width integers and byte runs from an in-memory file image.
use crate::error::ShapefileError;
use crate::text::{decimal_chars, decimal_string, spec_utf8_error, utf8_to_string};
use vstd::prelude::*;
use vstd::utf8::*;

verus! {

/// Unsigned value of the two little-endian bytes at `i`.
pub open spec fn u16_le_at(s: Seq<u8>, i: int) -> int {
    s[i] + 256 * s[i + 1]
}

/// Unsigned value of the four little-endian bytes at `i`.
pub open spec fn u32_le_at(s: Seq<u8>, i: int) -> int {
    s[i] + 256 * s[i + 1] + 65536 * s[i + 2] + 16777216 * s[i + 3]
}

/// Unsigned value of the four big-endian bytes at `i`.
pub open spec fn u32_be_at(s: Seq<u8>, i: int) -> int {
    16777216 * s[i] + 65536 * s[i + 1] + 256 * s[i + 2] + s[i + 3]
}

/// Unsigned value of the eight little-endian bytes at `i`.
pub open spec fn u64_le_at(s: Seq<u8>, i: int) -> int {
    u32_le_at(s, i) + 4294967296 * u32_le_at(s, i + 4)
}

/// Two's-complement reading of a 32-bit unsigned value.
pub open spec fn signed32(u: int) -> int {
    if u < 0x8000_0000 {
        u
    } else {
        u - 0x1_0000_0000
    }
}

/// Two's-complement reading of a 16-bit unsigned value.
pub open spec fn signed16(u: int) -> int {
    if u < 0x8000 {
        u
    } else {
        u - 0x1_0000
    }
}

pub open spec fn i32_le_at(s: Seq<u8>, i: int) -> int {
    signed32(u32_le_at(s, i))
}

pub open spec fn i32_be_at(s: Seq<u8>, i: int) -> int {
    signed32(u32_be_at(s, i))
}

pub open spec fn i16_le_at(s: Seq<u8>, i: int) -> int {
    signed16(u16_le_at(s, i))
}

fn to_i32(u: u32) -> (r: i32)
    ensures
        r as int == signed32(u as int),
{
    assert((u as i32) as int == if u < 0x8000_0000u32 { u as int } else { u as int - 0x1_0000_0000 })
        by (bit_vector);
    u as i32
}

/// A signed 16-bit value reinterpreted as unsigned (`as u16`).
pub fn i16_as_u16(v: i16) -> (r: u16)
    ensures
        v as int == signed16(r as int),
{
    assert((v as u16) as int == if v < 0 { v as int + 0x1_0000 } else { v as int }) by (bit_vector);
    v as u16
}

/// A signed 32-bit value reinterpreted as unsigned (`as u32`).
pub fn i32_as_u32(v: i32) -> (r: u32)
    ensures
        v as int == signed32(r as int),
{
    assert((v as u32) as int == if v < 0 { v as int + 0x1_0000_0000 } else { v as int })
        by (bit_vector);
    v as u32
}

/// The four little-endian bytes at `i` as a signed 32-bit integer.
pub fn i32_from_le(s: &[u8], i: usize) -> (r: i32)
    requires
        i + 4 <= s@.len(),
    ensures
        r as int == i32_le_at(s@, i as int),
{
    let u: u32 = (s[i] as u32) + 256 * (s[i + 1] as u32) + 65536 * (s[i + 2] as u32) + 16777216 * (
    s[i + 3] as u32);
    to_i32(u)
}

/// The four big-endian bytes at `i` as a signed 32-bit integer.
pub fn i32_from_be(s: &[u8], i: usize) -> (r: i32)
    requires
        i + 4 <= s@.len(),
    ensures
        r as int == i32_be_at(s@, i as int),
{
    let u: u32 = 16777216 * (s[i] as u32) + 65536 * (s[i + 1] as u32) + 256 * (s[i + 2] as u32) + (
    s[i + 3] as u32);
    to_i32(u)
}

/// The two little-endian bytes at `i` as a signed 16-bit integer.
pub fn i16_from_le(s: &[u8], i: usize) -> (r: i16)
    requires
        i + 2 <= s@.len(),
    ensures
        r as int == i16_le_at(s@, i as int),
{
    let u: u16 = (s[i] as u16) + 256 * (s[i + 1] as u16);
    assert((u as i16) as int == if u < 0x8000u16 { u as int } else { u as int - 0x1_0000 })
        by (bit_vector);
    u as i16
}

/// The eight little-endian bytes at `i` as an unsigned 64-bit integer.
pub fn u64_from_le(s: &[u8], i: usize) -> (r: u64)
    requires
        i + 8 <= s@.len(),
    ensures
        r as int == u64_le_at(s@, i as int),
{
    let lo: u64 = (s[i] as u64) + 256 * (s[i + 1] as u64) + 65536 * (s[i + 2] as u64) + 16777216 * (
    s[i + 3] as u64);
    let hi: u64 = (s[i + 4] as u64) + 256 * (s[i + 5] as u64) + 65536 * (s[i + 6] as u64)
        + 16777216 * (s[i + 7] as u64);
    lo + 4294967296 * hi
}

/// The `n` bytes of `v` starting at `i`.
pub fn copy_range(v: &Vec<u8>, i: usize, n: usize) -> (r: Vec<u8>)
    requires
        i + n <= v@.len(),
    ensures
        r@ == v@.subrange(i as int, i + n),
{
    let mut out: Vec<u8> = Vec::new();
    let mut k: usize = 0;
    let len = v.len();
    while k < n
        invariant
            len == v@.len(),
            i + n <= v@.len(),
            k <= n,
            out@ == v@.subrange(i as int, i + k),
        decreases n - k,
    {
        out.push(v[i + k]);
        k = k + 1;
        assert(out@ =~= v@.subrange(i as int, i + k));
    }
    out
}

/// A cursor over the bytes of a file image: reads advance the position, a
/// read past the end fails with `CorruptedFile` and leaves the position at

/// Why a read past the end of the data fails: `unexpected EOF while
/// reading` and what was being read.
pub open spec fn eof_reason(what: Seq<char>) -> Seq<char> {
    "unexpected EOF while reading "@ + what
}

/// the end, and seeks may move the position anywhere.
pub struct BinaryReader {
    data: Vec<u8>,
    pos: u64,
}

impl BinaryReader {
    /// The bytes being read.
    pub closed spec fn bytes(&self) -> Seq<u8> {
        self.data@
    }

    /// The current position, in bytes from the start.
    pub closed spec fn pos(&self) -> int {
        self.pos as int
    }

    /// Whether `n` more bytes are available at the current position.
    pub open spec fn can_read(&self, n: int) -> bool {
        self.pos() + n <= self.bytes().len()
    }

    /// The `n` bytes at the current position.
    pub open spec fn next_bytes(&self, n: int) -> Seq<u8> {
        self.bytes().subrange(self.pos(), self.pos() + n)
    }

    pub proof fn lemma_pos_bounds(&self)
        ensures
            0 <= self.pos() <= u64::MAX,
    {
    }

    /// The bytes being read.
    pub fn data(&self) -> (r: &Vec<u8>)
        ensures
            r@ == self.bytes(),
    {
        &self.data
    }

    /// A reader positioned at the start of `data`.
    pub fn new(data: Vec<u8>) -> (r: Self)
        ensures
            r.bytes() == data@,
            r.pos() == 0,
    {
        BinaryReader { data, pos: 0 }
    }

    fn eof_error(&mut self, what: &str) -> (r: ShapefileError)
        ensures
            r matches ShapefileError::CorruptedFile { reason } && reason@ == eof_reason(what@),
            final(self).bytes() == old(self).bytes(),
            final(self).pos() == old(self).bytes().len(),
    {
        self.pos = self.data.len() as u64;
        let mut reason = "unexpected EOF while reading ".to_string();
        reason.append(what);
        ShapefileError::CorruptedFile { reason }
    }

    /// Checks whether `n` bytes can be read, and if so returns where they start.
    fn available(&self, n: usize) -> (r: Option<usize>)
        ensures
            r is Some <==> self.can_read(n as int),
            r matches Some(i) ==> i == self.pos() && i + n <= self.bytes().len() && i + n <= u64::MAX,
    {

        let len = self.data.len();
        if self.pos <= len as u64 && n <= len - (self.pos as usize) {
            Some(self.pos as usize)
        } else {
            None
        }
    }

    /// Reads a big-endian `i32`.
    pub fn read_i32_be(&mut self) -> (r: Result<i32, ShapefileError>)
        ensures
            final(self).bytes() == old(self).bytes(),
            old(self).can_read(4) ==> (r matches Ok(v) && v as int == i32_be_at(
                old(self).bytes(),
                old(self).pos(),
            ) && final(self).pos() == old(self).pos() + 4),
            !old(self).can_read(4) ==> (r matches Err(e) && e is CorruptedFile && final(self).pos()
                == old(self).bytes().len()),
            !old(self).can_read(4) ==> (r matches Err(ShapefileError::CorruptedFile { reason })
                && reason@ == eof_reason("i32 (big-endian)"@)),
    {
        match self.available(4) {
            Some(i) => {
                let v = i32_from_be(self.data.as_slice(), i);
                self.pos = self.pos + 4;
                Ok(v)
            },
            None => Err(self.eof_error("i32 (big-endian)")),
        }
    }

    /// Reads a little-endian `i32`.
    pub fn read_i32_le(&mut self) -> (r: Result<i32, ShapefileError>)
        ensures
            final(self).bytes() == old(self).bytes(),
            old(self).can_read(4) ==> (r matches Ok(v) && v as int == i32_le_at(
                old(self).bytes(),
                old(self).pos(),
            ) && final(self).pos() == old(self).pos() + 4),
            !old(self).can_read(4) ==> (r matches Err(e) && e is CorruptedFile && final(self).pos()
                == old(self).bytes().len()),
            !old(self).can_read(4) ==> (r matches Err(ShapefileError::CorruptedFile { reason })
                && reason@ == eof_reason("i32 (little-endian)"@)),
    {
        match self.available(4) {
            Some(i) => {
                let v = i32_from_le(self.data.as_slice(), i);
                self.pos = self.pos + 4;
                Ok(v)
            },
            None => Err(self.eof_error("i32 (little-endian)")),
        }
    }

    /// Reads a little-endian `i16`.
    pub fn read_i16_le(&mut self) -> (r: Result<i16, ShapefileError>)
        ensures
            final(self).bytes() == old(self).bytes(),
            old(self).can_read(2) ==> (r matches Ok(v) && v as int == i16_le_at(
                old(self).bytes(),
                old(self).pos(),
            ) && final(self).pos() == old(self).pos() + 2),
            !old(self).can_read(2) ==> (r matches Err(e) && e is CorruptedFile && final(self).pos()
                == old(self).bytes().len()),
            !old(self).can_read(2) ==> (r matches Err(ShapefileError::CorruptedFile { reason })
                && reason@ == eof_reason("i16 (little-endian)"@)),
    {
        match self.available(2) {
            Some(i) => {
                let v = i16_from_le(self.data.as_slice(), i);
                self.pos = self.pos + 2;
                Ok(v)
            },
            None => Err(self.eof_error("i16 (little-endian)")),
        }
    }

    /// Reads the eight bytes of a little-endian IEEE-754 binary64 value and
    /// returns its bit pattern.
    pub fn read_f64_bits_le(&mut self) -> (r: Result<u64, ShapefileError>)
        ensures
            final(self).bytes() == old(self).bytes(),
            old(self).can_read(8) ==> (r matches Ok(v) && v as int == u64_le_at(
                old(self).bytes(),
                old(self).pos(),
            ) && final(self).pos() == old(self).pos() + 8),
            !old(self).can_read(8) ==> (r matches Err(e) && e is CorruptedFile && final(self).pos()
                == old(self).bytes().len()),
            !old(self).can_read(8) ==> (r matches Err(ShapefileError::CorruptedFile { reason })
                && reason@ == eof_reason("f64 (little-endian)"@)),
    {
        match self.available(8) {
            Some(i) => {
                let v = u64_from_le(self.data.as_slice(), i);
                self.pos = self.pos + 8;
                Ok(v)
            },
            None => Err(self.eof_error("f64 (little-endian)")),
        }
    }

    /// Reads `n` bytes.
    pub fn read_bytes(&mut self, n: usize) -> (r: Result<Vec<u8>, ShapefileError>)
        ensures
            final(self).bytes() == old(self).bytes(),
            old(self).can_read(n as int) ==> (r matches Ok(v) && v@ == old(self).next_bytes(n as int)
                && final(self).pos() == old(self).pos() + n),
            !old(self).can_read(n as int) ==> (r matches Err(e) && e is CorruptedFile
                && final(self).pos() == old(self).bytes().len()),
            !old(self).can_read(n as int) ==> (r matches Err(ShapefileError::CorruptedFile { reason })
                && reason@ == eof_reason(decimal_chars(n as nat) + " bytes"@)),
    {
        match self.available(n) {
            Some(i) => {
                let out = copy_range(&self.data, i, n);
                self.pos = self.pos + n as u64;
                Ok(out)
            },
            None => {
                let mut reason = "unexpected EOF while reading ".to_string();
                reason.append(decimal_string(n).as_str());
                reason.append(" bytes");
                self.pos = self.data.len() as u64;
                Err(ShapefileError::CorruptedFile { reason })
            },
        }
    }

    /// Reads `n` bytes and decodes them as UTF-8.
    pub fn read_string(&mut self, n: usize) -> (r: Result<String, ShapefileError>)
        ensures
            final(self).bytes() == old(self).bytes(),
            old(self).can_read(n as int) ==> final(self).pos() == old(self).pos() + n,
            !old(self).can_read(n as int) ==> final(self).pos() == old(self).bytes().len(),
            r is Ok <==> old(self).can_read(n as int) && valid_utf8(old(self).next_bytes(n as int)),
            r matches Ok(s) ==> s@ == decode_utf8(old(self).next_bytes(n as int)),
            r matches Err(e) ==> e is CorruptedFile,
            old(self).can_read(n as int) && !valid_utf8(old(self).next_bytes(n as int)) ==> (r matches Err(
                ShapefileError::CorruptedFile { reason },
            ) && reason@ == "invalid UTF-8: "@ + spec_utf8_error(old(self).next_bytes(n as int))),
    {
        let bytes = self.read_bytes(n)?;
        match utf8_to_string(bytes.as_slice()) {
            Ok(s) => Ok(s),
            Err(m) => {
                let mut reason = "invalid UTF-8: ".to_string();
                reason.append(m.as_str());
                Err(ShapefileError::CorruptedFile { reason })
            },
        }
    }

    /// Moves to `offset` bytes from the start (which may lie past the end).
    pub fn seek_from_start(&mut self, offset: u64) -> (r: Result<(), ShapefileError>)
        ensures
            r is Ok,
            final(self).bytes() == old(self).bytes(),
            final(self).pos() == offset,
    {
        self.pos = offset;
        Ok(())
    }

    /// The current position.
    pub fn position(&self) -> (r: Result<u64, ShapefileError>)
        ensures
            r matches Ok(p) && p == self.pos(),
    {
        Ok(self.pos)
    }

    /// Whether the position is at or past the end of the data.
    pub fn at_end(&self) -> (r: bool)
        ensures
            r == (self.pos() >= self.bytes().len()),
    {
        self.pos >= self.data.len() as u64
    }

    /// Whether the position is at or past the end of the data.
    pub fn is_eof(&self) -> (r: Result<bool, ShapefileError>)
        ensures
            r matches Ok(b) && b == (self.pos() >= self.bytes().len()),
    {
        Ok(self.pos >= self.data.len() as u64)
    }
}

} // verus!
