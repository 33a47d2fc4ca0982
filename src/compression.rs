use vstd::prelude::*;
use crate::text::{chars_of, find_char, is_text, slice_of, string_of};
use std::io::Read;
use std::io::Write;

verus! {

/// Errors of the compression catalog and of the codecs.
#[derive(Debug)]
pub enum CompressionError {
    /// A codec failed; the codec's message.
    Io(String),
    UnknownAlgorithm(String),
    InvalidLevel(String),
}

/// The compression algorithms of the catalog.
#[derive(Debug, Clone, Copy, PartialEq, Eq, Structural)]
pub enum CompressionAlgorithm {
    Lz4,
    Bzip2,
    Deflate,
    Gzip,
    Zlib,
    Zstd,
}

/// Compression levels; their meaning is per algorithm.
#[derive(Debug, Clone, Copy, PartialEq, Eq, Structural)]
pub enum CompressionLevel {
    Quick,
    Fast,
    Balanced,
    Good,
    Best,
    Default,
    Custom(i8),
}

impl Default for CompressionLevel {
    fn default() -> (r: Self)
        ensures
            r == CompressionLevel::Default,
    {
        CompressionLevel::Default
    }
}

pub open spec fn algorithm_name(a: CompressionAlgorithm) -> Seq<char> {
    match a {
        CompressionAlgorithm::Lz4 => "lz4"@,
        CompressionAlgorithm::Bzip2 => "bzip2"@,
        CompressionAlgorithm::Deflate => "deflate"@,
        CompressionAlgorithm::Gzip => "gzip"@,
        CompressionAlgorithm::Zlib => "zlib"@,
        CompressionAlgorithm::Zstd => "zstd"@,
    }
}

pub open spec fn algorithm_named(s: Seq<char>) -> Option<CompressionAlgorithm> {
    if s == "lz4"@ {
        Some(CompressionAlgorithm::Lz4)
    } else if s == "bzip2"@ || s == "bz2"@ {
        Some(CompressionAlgorithm::Bzip2)
    } else if s == "deflate"@ {
        Some(CompressionAlgorithm::Deflate)
    } else if s == "gzip"@ {
        Some(CompressionAlgorithm::Gzip)
    } else if s == "zlib"@ {
        Some(CompressionAlgorithm::Zlib)
    } else if s == "zstd"@ {
        Some(CompressionAlgorithm::Zstd)
    } else {
        None
    }
}

impl CompressionAlgorithm {
    /// The name of the algorithm.
    pub fn name(&self) -> (r: &'static str)
        ensures
            r@ == algorithm_name(*self),
    {
        match self {
            CompressionAlgorithm::Lz4 => "lz4",
            CompressionAlgorithm::Bzip2 => "bzip2",
            CompressionAlgorithm::Deflate => "deflate",
            CompressionAlgorithm::Gzip => "gzip",
            CompressionAlgorithm::Zlib => "zlib",
            CompressionAlgorithm::Zstd => "zstd",
        }
    }

    /// The algorithm a name stands for.
    pub fn from_str(s: &str) -> (r: Result<CompressionAlgorithm, CompressionError>)
        ensures
            match r {
                Ok(a) => algorithm_named(s@) == Some(a),
                Err(CompressionError::UnknownAlgorithm(e)) => algorithm_named(s@).is_none() && e@ == s@,
                Err(_) => false,
            },
    {
        let c = chars_of(s);
        let c = c.as_slice();
        if is_text(c, "lz4") {
            Ok(CompressionAlgorithm::Lz4)
        } else if is_text(c, "bzip2") || is_text(c, "bz2") {
            Ok(CompressionAlgorithm::Bzip2)
        } else if is_text(c, "deflate") {
            Ok(CompressionAlgorithm::Deflate)
        } else if is_text(c, "gzip") {
            Ok(CompressionAlgorithm::Gzip)
        } else if is_text(c, "zlib") {
            Ok(CompressionAlgorithm::Zlib)
        } else if is_text(c, "zstd") {
            Ok(CompressionAlgorithm::Zstd)
        } else {
            Err(CompressionError::UnknownAlgorithm(String::from_str(s)))
        }
    }
}

/// The value of a run of decimal digits.
pub open spec fn digits_value(s: Seq<char>) -> int
    decreases s.len(),
{
    if s.len() == 0 {
        0
    } else {
        digits_value(s.drop_last()) * 10 + (s.last() as int - '0' as int)
    }
}

pub open spec fn all_digits(s: Seq<char>) -> bool {
    forall|i: int| 0 <= i < s.len() ==> '0' <= #[trigger] s[i] && s[i] <= '9'
}

/// The value of a decimal integer text: an optional sign, then at least
/// one digit.
pub open spec fn int_text_value(s: Seq<char>) -> Option<int> {
    if s.len() > 0 && (s[0] == '-' || s[0] == '+') {
        let d = s.drop_first();
        if d.len() > 0 && all_digits(d) {
            Some(if s[0] == '-' { -digits_value(d) } else { digits_value(d) })
        } else {
            None
        }
    } else if s.len() > 0 && all_digits(s) {
        Some(digits_value(s))
    } else {
        None
    }
}

/// Parse a decimal `i8`: an optional sign, then digits, in range.
pub fn parse_i8(s: &[char]) -> (r: Option<i8>)
    ensures
        match r {
            Some(v) => int_text_value(s@) == Some(v as int),
            None => match int_text_value(s@) {
                Some(x) => x < -128 || x > 127,
                None => true,
            },
        },
{
    if s.len() == 0 {
        return None;
    }
    let neg = s[0] == '-';
    let start: usize = if s[0] == '-' || s[0] == '+' { 1 } else { 0 };
    if start >= s.len() {
        return None;
    }
    let d = slice_of(s, start, s.len());
    proof {
        if start == 1 {
            assert(d@ =~= s@.drop_first());
        } else {
            assert(d@ =~= s@);
        }
    }
    let mut acc: i64 = 0;
    let mut i: usize = 0;
    while i < d.len()
        invariant
            s@.len() > 0,
            d@.len() > 0,
            (start == 1) == (s@[0] == '-' || s@[0] == '+'),
            neg == (s@[0] == '-'),
            start == 1 ==> d@ == s@.drop_first(),
            start != 1 ==> d@ == s@,
            i <= d@.len(),
            all_digits(d@.subrange(0, i as int)),
            acc == digits_value(d@.subrange(0, i as int)),
            0 <= acc <= 1000,
        decreases d.len() - i,
    {
        let c = d[i];
        if !('0' <= c && c <= '9') {
            proof {
                assert(!all_digits(d@));
            }
            return None;
        }
        proof {
            assert(d@.subrange(0, i + 1).drop_last() =~= d@.subrange(0, i as int));
        }
        let next = acc * 10 + (c as u32 - '0' as u32) as i64;
        if next > 1000 {
            proof {
                assert(all_digits(d@.subrange(0, i + 1)));
                lemma_digits_prefix_bound(d@, i + 1);
            }
            return None;
        }
        acc = next;
        i += 1;
    }
    assert(d@.subrange(0, i as int) =~= d@);
    let v: i64 = if neg { -acc } else { acc };
    if v < -128 || v > 127 {
        return None;
    }
    Some(v as i8)
}

proof fn lemma_digits_prefix_bound(s: Seq<char>, k: int)
    requires
        0 <= k <= s.len(),
        all_digits(s.subrange(0, k)),
        digits_value(s.subrange(0, k)) > 1000,
    ensures
        all_digits(s) ==> digits_value(s) > 1000,
    decreases s.len() - k,
{
    if k < s.len() && all_digits(s) {
        assert(s.subrange(0, k + 1).drop_last() =~= s.subrange(0, k));
        assert(all_digits(s.subrange(0, k + 1)));
        lemma_digits_prefix_bound(s, k + 1);
    } else if k == s.len() {
        assert(s.subrange(0, k) =~= s);
    }
}

pub open spec fn level_named(s: Seq<char>) -> Option<CompressionLevel> {
    if s == "quick"@ {
        Some(CompressionLevel::Quick)
    } else if s == "fast"@ {
        Some(CompressionLevel::Fast)
    } else if s == "balanced"@ {
        Some(CompressionLevel::Balanced)
    } else if s == "good"@ {
        Some(CompressionLevel::Good)
    } else if s == "best"@ {
        Some(CompressionLevel::Best)
    } else if s == "default"@ {
        Some(CompressionLevel::Default)
    } else {
        match int_text_value(s) {
            Some(v) => if -128 <= v <= 127 {
                Some(CompressionLevel::Custom(v as i8))
            } else {
                None
            },
            None => None,
        }
    }
}

/// The zstd level of a catalog level.
pub open spec fn zstd_level_of(l: CompressionLevel) -> i32 {
    match l {
        CompressionLevel::Quick => 3,
        CompressionLevel::Fast => 9,
        CompressionLevel::Balanced => 13,
        CompressionLevel::Good => 17,
        CompressionLevel::Best => 22,
        CompressionLevel::Default => 10,
        CompressionLevel::Custom(v) => v as i32,
    }
}

/// The bzip2 and deflate family level of a catalog level; `default` is
/// the algorithm's own default.
pub open spec fn numeric_level_of(l: CompressionLevel, default: int) -> int {
    match l {
        CompressionLevel::Quick => 1,
        CompressionLevel::Fast => 3,
        CompressionLevel::Balanced => 5,
        CompressionLevel::Good => 7,
        CompressionLevel::Best => 9,
        CompressionLevel::Default => default,
        CompressionLevel::Custom(v) => v as int,
    }
}

impl CompressionLevel {
    /// The level a name or a decimal `i8` stands for.
    pub fn from_str(s: &str) -> (r: Result<CompressionLevel, CompressionError>)
        ensures
            match r {
                Ok(l) => level_named(s@) == Some(l),
                Err(CompressionError::InvalidLevel(e)) => level_named(s@).is_none() && e@ == s@,
                Err(_) => false,
            },
    {
        let c = chars_of(s);
        let c = c.as_slice();
        if is_text(c, "quick") {
            Ok(CompressionLevel::Quick)
        } else if is_text(c, "fast") {
            Ok(CompressionLevel::Fast)
        } else if is_text(c, "balanced") {
            Ok(CompressionLevel::Balanced)
        } else if is_text(c, "good") {
            Ok(CompressionLevel::Good)
        } else if is_text(c, "best") {
            Ok(CompressionLevel::Best)
        } else if is_text(c, "default") {
            Ok(CompressionLevel::Default)
        } else {
            match parse_i8(c) {
                Some(v) => Ok(CompressionLevel::Custom(v)),
                None => Err(CompressionError::InvalidLevel(String::from_str(s))),
            }
        }
    }

    /// The zstd level.
    pub fn zstd_level(&self) -> (r: i32)
        ensures
            r == zstd_level_of(*self),
    {
        match self {
            CompressionLevel::Quick => 3,
            CompressionLevel::Fast => 9,
            CompressionLevel::Balanced => 13,
            CompressionLevel::Good => 17,
            CompressionLevel::Best => 22,
            CompressionLevel::Default => 10,
            CompressionLevel::Custom(v) => *v as i32,
        }
    }

    /// The level on the bzip2 and deflate scale, given the algorithm's
    /// default.
    pub fn numeric_level(&self, default: u32) -> (r: i32)
        requires
            default <= 9,
        ensures
            r == numeric_level_of(*self, default as int),
    {
        match self {
            CompressionLevel::Quick => 1,
            CompressionLevel::Fast => 3,
            CompressionLevel::Balanced => 5,
            CompressionLevel::Good => 7,
            CompressionLevel::Best => 9,
            CompressionLevel::Default => default as i32,
            CompressionLevel::Custom(v) => *v as i32,
        }
    }
}

/// What the lz4 frame encoder makes of some bytes.
pub uninterp spec fn lz4_frame_of(b: Seq<u8>) -> Seq<u8>;

/// What the bzip2 encoder makes of some bytes at a level.
pub uninterp spec fn bzip2_of(b: Seq<u8>, level: u32) -> Seq<u8>;

/// What the raw deflate encoder makes of some bytes at a level.
pub uninterp spec fn deflate_of(b: Seq<u8>, level: u32) -> Seq<u8>;

/// What the gzip encoder makes of some bytes at a level.
pub uninterp spec fn gzip_of(b: Seq<u8>, level: u32) -> Seq<u8>;

/// What the zlib encoder makes of some bytes at a level.
pub uninterp spec fn zlib_of(b: Seq<u8>, level: u32) -> Seq<u8>;

/// What the zstd encoder makes of some bytes at a level.
pub uninterp spec fn zstd_of(b: Seq<u8>, level: i32) -> Seq<u8>;

/// The bytes an lz4 frame stream decodes to, if it is valid.
pub uninterp spec fn lz4_plain_of(b: Seq<u8>) -> Option<Seq<u8>>;

/// The bytes a bzip2 stream (one or more members) decodes to, if valid.
pub uninterp spec fn bzip2_plain_of(b: Seq<u8>) -> Option<Seq<u8>>;

/// The bytes a raw deflate stream decodes to, if valid.
pub uninterp spec fn deflate_plain_of(b: Seq<u8>) -> Option<Seq<u8>>;

/// The bytes a gzip stream (one or more members) decodes to, if valid.
pub uninterp spec fn gzip_plain_of(b: Seq<u8>) -> Option<Seq<u8>>;

/// The bytes a zlib stream decodes to, if valid.
pub uninterp spec fn zlib_plain_of(b: Seq<u8>) -> Option<Seq<u8>>;

/// The bytes a zstd stream decodes to, if valid.
pub uninterp spec fn zstd_plain_of(b: Seq<u8>) -> Option<Seq<u8>>;

/// Relies on `lz4_flex::frame::FrameEncoder`: writes the bytes as one lz4
/// frame into a vector; the frame depends on the bytes alone.
#[verifier::external_body]
fn lz4_compress(b: &[u8]) -> (r: Result<Vec<u8>, String>)
    ensures
        r is Ok,
        r matches Ok(v) ==> v@ == lz4_frame_of(b@),
{
    let mut e = lz4_flex::frame::FrameEncoder::new(Vec::new());
    e.write_all(b).map_err(|err| err.to_string())?;
    e.finish().map_err(|err| err.to_string())
}

/// Relies on `bzip2::write::BzEncoder`, whose level must be 1 to 9 (other
/// levels fail an assertion when the stream is set up).
#[verifier::external_body]
fn bzip2_compress(b: &[u8], level: u32) -> (r: Result<Vec<u8>, String>)
    requires
        1 <= level <= 9,
    ensures
        r is Ok,
        r matches Ok(v) ==> v@ == bzip2_of(b@, level),
{
    let mut e = bzip2::write::BzEncoder::new(Vec::new(), bzip2::Compression::new(level));
    e.write_all(b).map_err(|err| err.to_string())?;
    e.finish().map_err(|err| err.to_string())
}

/// Relies on `flate2::write::DeflateEncoder`, levels 0 to 9; writing into a
/// vector does not fail.
#[verifier::external_body]
fn deflate_compress(b: &[u8], level: u32) -> (r: Result<Vec<u8>, String>)
    requires
        level <= 9,
    ensures
        r is Ok,
        r matches Ok(v) ==> v@ == deflate_of(b@, level),
{
    let mut e = flate2::write::DeflateEncoder::new(Vec::new(), flate2::Compression::new(level));
    e.write_all(b).map_err(|err| err.to_string())?;
    e.finish().map_err(|err| err.to_string())
}

/// Relies on `flate2::write::GzEncoder` with its default header, levels 0
/// to 9.
#[verifier::external_body]
fn gzip_compress(b: &[u8], level: u32) -> (r: Result<Vec<u8>, String>)
    requires
        level <= 9,
    ensures
        r is Ok,
        r matches Ok(v) ==> v@ == gzip_of(b@, level),
{
    let mut e = flate2::write::GzEncoder::new(Vec::new(), flate2::Compression::new(level));
    e.write_all(b).map_err(|err| err.to_string())?;
    e.finish().map_err(|err| err.to_string())
}

/// Relies on `flate2::write::ZlibEncoder`, levels 0 to 9; writing into a
/// vector does not fail.
#[verifier::external_body]
fn zlib_compress(b: &[u8], level: u32) -> (r: Result<Vec<u8>, String>)
    requires
        level <= 9,
    ensures
        r is Ok,
        r matches Ok(v) ==> v@ == zlib_of(b@, level),
{
    let mut e = flate2::write::ZlibEncoder::new(Vec::new(), flate2::Compression::new(level));
    e.write_all(b).map_err(|err| err.to_string())?;
    e.finish().map_err(|err| err.to_string())
}

/// Relies on `zstd::encode_all`, which clamps the level; writing into a
/// vector does not fail.
#[verifier::external_body]
fn zstd_compress(b: &[u8], level: i32) -> (r: Result<Vec<u8>, String>)
    ensures
        r is Ok,
        r matches Ok(v) ==> v@ == zstd_of(b@, level),
{
    zstd::encode_all(b, level).map_err(|err| err.to_string())
}

/// Relies on `lz4_flex::frame::FrameDecoder`: decodes every frame of the
/// bytes, or fails on an invalid stream.
#[verifier::external_body]
fn lz4_decompress(b: &[u8]) -> (r: Result<Vec<u8>, String>)
    ensures
        match r {
            Ok(v) => lz4_plain_of(b@) == Some(v@),
            Err(_) => lz4_plain_of(b@).is_none(),
        },
{
    let mut out = Vec::new();
    lz4_flex::frame::FrameDecoder::new(b).read_to_end(&mut out).map_err(|err| err.to_string())?;
    Ok(out)
}

/// Relies on `bzip2::read::MultiBzDecoder`: decodes every member.
#[verifier::external_body]
fn bzip2_decompress(b: &[u8]) -> (r: Result<Vec<u8>, String>)
    ensures
        match r {
            Ok(v) => bzip2_plain_of(b@) == Some(v@),
            Err(_) => bzip2_plain_of(b@).is_none(),
        },
{
    let mut out = Vec::new();
    bzip2::read::MultiBzDecoder::new(b).read_to_end(&mut out).map_err(|err| err.to_string())?;
    Ok(out)
}

/// Relies on `flate2::read::DeflateDecoder`.
#[verifier::external_body]
fn deflate_decompress(b: &[u8]) -> (r: Result<Vec<u8>, String>)
    ensures
        match r {
            Ok(v) => deflate_plain_of(b@) == Some(v@),
            Err(_) => deflate_plain_of(b@).is_none(),
        },
{
    let mut out = Vec::new();
    flate2::read::DeflateDecoder::new(b).read_to_end(&mut out).map_err(|err| err.to_string())?;
    Ok(out)
}

/// Relies on `flate2::read::MultiGzDecoder`: decodes every member.
#[verifier::external_body]
fn gzip_decompress(b: &[u8]) -> (r: Result<Vec<u8>, String>)
    ensures
        match r {
            Ok(v) => gzip_plain_of(b@) == Some(v@),
            Err(_) => gzip_plain_of(b@).is_none(),
        },
{
    let mut out = Vec::new();
    flate2::read::MultiGzDecoder::new(b).read_to_end(&mut out).map_err(|err| err.to_string())?;
    Ok(out)
}

/// Relies on `flate2::read::ZlibDecoder`.
#[verifier::external_body]
fn zlib_decompress(b: &[u8]) -> (r: Result<Vec<u8>, String>)
    ensures
        match r {
            Ok(v) => zlib_plain_of(b@) == Some(v@),
            Err(_) => zlib_plain_of(b@).is_none(),
        },
{
    let mut out = Vec::new();
    flate2::read::ZlibDecoder::new(b).read_to_end(&mut out).map_err(|err| err.to_string())?;
    Ok(out)
}

/// Relies on `zstd::decode_all`.
#[verifier::external_body]
fn zstd_decompress(b: &[u8]) -> (r: Result<Vec<u8>, String>)
    ensures
        match r {
            Ok(v) => zstd_plain_of(b@) == Some(v@),
            Err(_) => zstd_plain_of(b@).is_none(),
        },
{
    zstd::decode_all(b).map_err(|err| err.to_string())
}

/// Whether a catalog level can be handed to an algorithm's codec: bzip2
/// takes 1 to 9, the deflate family 0 to 9, zstd and lz4 any level.
pub open spec fn level_fits(a: CompressionAlgorithm, l: CompressionLevel) -> bool {
    match a {
        CompressionAlgorithm::Bzip2 => 1 <= numeric_level_of(l, 4) <= 9,
        CompressionAlgorithm::Deflate | CompressionAlgorithm::Gzip | CompressionAlgorithm::Zlib => 0
            <= numeric_level_of(l, 6) <= 9,
        _ => true,
    }
}

/// The compressed form of some bytes.
pub open spec fn compressed_of(a: CompressionAlgorithm, l: CompressionLevel, b: Seq<u8>) -> Seq<u8> {
    match a {
        CompressionAlgorithm::Lz4 => lz4_frame_of(b),
        CompressionAlgorithm::Bzip2 => bzip2_of(b, numeric_level_of(l, 4) as u32),
        CompressionAlgorithm::Deflate => deflate_of(b, numeric_level_of(l, 6) as u32),
        CompressionAlgorithm::Gzip => gzip_of(b, numeric_level_of(l, 6) as u32),
        CompressionAlgorithm::Zlib => zlib_of(b, numeric_level_of(l, 6) as u32),
        CompressionAlgorithm::Zstd => zstd_of(b, zstd_level_of(l)),
    }
}

/// The bytes a compressed stream decodes to, if it is valid.
pub open spec fn decompressed_of(a: CompressionAlgorithm, b: Seq<u8>) -> Option<Seq<u8>> {
    match a {
        CompressionAlgorithm::Lz4 => lz4_plain_of(b),
        CompressionAlgorithm::Bzip2 => bzip2_plain_of(b),
        CompressionAlgorithm::Deflate => deflate_plain_of(b),
        CompressionAlgorithm::Gzip => gzip_plain_of(b),
        CompressionAlgorithm::Zlib => zlib_plain_of(b),
        CompressionAlgorithm::Zstd => zstd_plain_of(b),
    }
}

/// Compress bytes in one go.
pub fn compress(a: CompressionAlgorithm, l: CompressionLevel, b: &[u8]) -> (r: Result<
    Vec<u8>,
    CompressionError,
>)
    ensures
        match r {
            Ok(v) => level_fits(a, l) && v@ == compressed_of(a, l, b@),
            Err(CompressionError::InvalidLevel(_)) => !level_fits(a, l),
            Err(_) => false,
        },
{
    let out = match a {
        CompressionAlgorithm::Lz4 => lz4_compress(b),
        CompressionAlgorithm::Bzip2 => {
            let n = l.numeric_level(4);
            if n < 1 || n > 9 {
                return Err(CompressionError::InvalidLevel(level_text(l)));
            }
            bzip2_compress(b, n as u32)
        },
        CompressionAlgorithm::Deflate | CompressionAlgorithm::Gzip | CompressionAlgorithm::Zlib => {
            let n = l.numeric_level(6);
            if n < 0 || n > 9 {
                return Err(CompressionError::InvalidLevel(level_text(l)));
            }
            match a {
                CompressionAlgorithm::Deflate => deflate_compress(b, n as u32),
                CompressionAlgorithm::Gzip => gzip_compress(b, n as u32),
                _ => zlib_compress(b, n as u32),
            }
        },
        CompressionAlgorithm::Zstd => zstd_compress(b, l.zstd_level()),
    };
    match out {
        Ok(v) => Ok(v),
        Err(e) => Err(CompressionError::Io(e)),
    }
}

/// Decompress bytes in one go.
pub fn decompress(a: CompressionAlgorithm, b: &[u8]) -> (r: Result<Vec<u8>, CompressionError>)
    ensures
        match r {
            Ok(v) => decompressed_of(a, b@) == Some(v@),
            Err(CompressionError::Io(_)) => decompressed_of(a, b@).is_none(),
            Err(_) => false,
        },
{
    let out = match a {
        CompressionAlgorithm::Lz4 => lz4_decompress(b),
        CompressionAlgorithm::Bzip2 => bzip2_decompress(b),
        CompressionAlgorithm::Deflate => deflate_decompress(b),
        CompressionAlgorithm::Gzip => gzip_decompress(b),
        CompressionAlgorithm::Zlib => zlib_decompress(b),
        CompressionAlgorithm::Zstd => zstd_decompress(b),
    };
    match out {
        Ok(v) => Ok(v),
        Err(e) => Err(CompressionError::Io(e)),
    }
}

/// A short text naming a level, for error messages.
fn level_text(l: CompressionLevel) -> String {
    match l {
        CompressionLevel::Custom(_) => String::from_str("custom"),
        _ => String::from_str("named"),
    }
}

/// Append `src[from..]` to `dst`.
fn append_bytes(dst: &mut Vec<u8>, src: &[u8])
    ensures
        final(dst)@ == old(dst)@ + src@,
{
    let mut i: usize = 0;
    while i < src.len()
        invariant
            i <= src@.len(),
            dst@ == old(dst)@ + src@.subrange(0, i as int),
        decreases src.len() - i,
    {
        dst.push(src[i]);
        proof {
            assert(old(dst)@ + src@.subrange(0, i + 1) =~= (old(dst)@ + src@.subrange(0, i as int)).push(src@[i as int]));
        }
        i += 1;
    }
    assert(src@.subrange(0, src@.len() as int) =~= src@);
}

/// A compressor: bytes written to it are compressed when the stream is
/// finished, then read out.
#[derive(Debug)]
pub struct Compressor {
    pub algorithm: CompressionAlgorithm,
    pub level: CompressionLevel,
    /// Bytes written and not compressed yet.
    pub input: Vec<u8>,
    /// Compressed bytes not read yet.
    pub output: Vec<u8>,
}

impl Compressor {
    /// A compressor for an algorithm and a level.
    pub fn new(algorithm: CompressionAlgorithm, level: CompressionLevel) -> (r: Result<
        Compressor,
        CompressionError,
    >)
        ensures
            match r {
                Ok(c) => c.algorithm == algorithm && c.level == level && c.input@.len() == 0
                    && c.output@.len() == 0 && level_fits(algorithm, level),
                Err(CompressionError::InvalidLevel(_)) => !level_fits(algorithm, level),
                Err(_) => false,
            },
    {
        let fits = match algorithm {
            CompressionAlgorithm::Bzip2 => {
                let n = level.numeric_level(4);
                1 <= n && n <= 9
            },
            CompressionAlgorithm::Deflate | CompressionAlgorithm::Gzip | CompressionAlgorithm::Zlib => {
                let n = level.numeric_level(6);
                0 <= n && n <= 9
            },
            _ => true,
        };
        if !fits {
            return Err(CompressionError::InvalidLevel(level_text(level)));
        }
        Ok(Compressor { algorithm, level, input: Vec::new(), output: Vec::new() })
    }

    /// The compressor's algorithm.
    pub fn algorithm(&self) -> (r: CompressionAlgorithm)
        ensures
            r == self.algorithm,
    {
        self.algorithm
    }

    /// Write bytes to compress.
    pub fn write_all(&mut self, buf: &[u8]) -> (r: Result<(), CompressionError>)
        ensures
            r is Ok,
            final(self).input@ == old(self).input@ + buf@,
            final(self).output@ == old(self).output@,
            final(self).algorithm == old(self).algorithm,
            final(self).level == old(self).level,
    {
        append_bytes(&mut self.input, buf);
        Ok(())
    }

    /// Nothing is held back between writes: flushing does nothing.
    pub fn flush(&mut self) -> (r: Result<(), CompressionError>)
        ensures
            r is Ok,
            *final(self) == *old(self),
    {
        Ok(())
    }

    /// End the stream: compress what was written and queue it for reading.
    pub fn try_finish(&mut self) -> (r: Result<(), CompressionError>)
        ensures
            final(self).algorithm == old(self).algorithm,
            final(self).level == old(self).level,
            r is Ok <==> level_fits(old(self).algorithm, old(self).level),
            match r {
                Ok(()) => final(self).input@.len() == 0 && final(self).output@ == old(self).output@
                    + compressed_of(old(self).algorithm, old(self).level, old(self).input@),
                Err(_) => *final(self) == *old(self),
            },
    {
        let packed = compress(self.algorithm, self.level, self.input.as_slice());
        match packed {
            Ok(v) => {
                append_bytes(&mut self.output, v.as_slice());
                self.input = Vec::new();
                Ok(())
            },
            Err(e) => Err(e),
        }
    }

    /// Move every compressed byte not read yet to the end of `out`.
    pub fn read_to_end(&mut self, out: &mut Vec<u8>) -> (r: Result<usize, CompressionError>)
        ensures
            r == Ok::<usize, CompressionError>(old(self).output@.len() as usize),
            final(out)@ == old(out)@ + old(self).output@,
            final(self).output@.len() == 0,
            final(self).input@ == old(self).input@,
            final(self).algorithm == old(self).algorithm,
            final(self).level == old(self).level,
    {
        append_bytes(out, self.output.as_slice());
        let n = self.output.len();
        self.output = Vec::new();
        Ok(n)
    }
}

/// A decompressor: compressed bytes written to it are decoded when read.
#[derive(Debug)]
pub struct Decompressor {
    pub algorithm: CompressionAlgorithm,
    /// Compressed bytes written and not decoded yet.
    pub input: Vec<u8>,
}

impl Decompressor {
    /// A decompressor for an algorithm.
    pub fn new(algorithm: CompressionAlgorithm) -> (r: Result<Decompressor, CompressionError>)
        ensures
            r matches Ok(d) && d.algorithm == algorithm && d.input@.len() == 0,
    {
        Ok(Decompressor { algorithm, input: Vec::new() })
    }

    /// The decompressor's algorithm.
    pub fn algorithm(&self) -> (r: CompressionAlgorithm)
        ensures
            r == self.algorithm,
    {
        self.algorithm
    }

    /// Write compressed bytes.
    pub fn write_all(&mut self, buf: &[u8]) -> (r: Result<(), CompressionError>)
        ensures
            r is Ok,
            final(self).input@ == old(self).input@ + buf@,
            final(self).algorithm == old(self).algorithm,
    {
        append_bytes(&mut self.input, buf);
        Ok(())
    }

    /// Nothing is held back between writes: flushing does nothing.
    pub fn flush(&mut self) -> (r: Result<(), CompressionError>)
        ensures
            r is Ok,
            *final(self) == *old(self),
    {
        Ok(())
    }

    /// Decode everything written so far and append it to `out`.
    pub fn read_to_end(&mut self, out: &mut Vec<u8>) -> (r: Result<usize, CompressionError>)
        ensures
            final(self).algorithm == old(self).algorithm,
            match r {
                Ok(n) => {
                    &&& decompressed_of(old(self).algorithm, old(self).input@) is Some
                    &&& final(out)@ == old(out)@ + decompressed_of(old(self).algorithm, old(self).input@)->Some_0
                    &&& n == decompressed_of(old(self).algorithm, old(self).input@)->Some_0.len()
                    &&& final(self).input@.len() == 0
                },
                Err(_) => decompressed_of(old(self).algorithm, old(self).input@) is None
                    && *final(out) == *old(out) && *final(self) == *old(self),
            },
    {
        match decompress(self.algorithm, self.input.as_slice()) {
            Ok(v) => {
                append_bytes(out, v.as_slice());
                self.input = Vec::new();
                Ok(v.len())
            },
            Err(e) => Err(e),
        }
    }
}

/// The decimal digits of a natural number.
pub open spec fn decimal_digits(n: nat) -> Seq<char>
    decreases n,
{
    if n < 10 {
        seq![((48 + n) as u8) as char]
    } else {
        decimal_digits(n / 10).push(((48 + n % 10) as u8) as char)
    }
}

/// The text of a level: its name, or the decimal value of a custom one.
pub open spec fn level_text_of(l: CompressionLevel) -> Seq<char> {
    match l {
        CompressionLevel::Quick => "quick"@,
        CompressionLevel::Fast => "fast"@,
        CompressionLevel::Balanced => "balanced"@,
        CompressionLevel::Good => "good"@,
        CompressionLevel::Best => "best"@,
        CompressionLevel::Default => "default"@,
        CompressionLevel::Custom(v) => if v < 0 {
            seq!['-'] + decimal_digits((-(v as int)) as nat)
        } else {
            decimal_digits(v as nat)
        },
    }
}

fn digits_text(n: u8) -> (r: String)
    ensures
        r@ == decimal_digits(n as nat),
{
    let mut s = String::new();
    if n >= 100 {
        crate::text::push_char(&mut s, ((48 + n / 100) as u8) as char);
    }
    if n >= 10 {
        crate::text::push_char(&mut s, ((48 + (n / 10) % 10) as u8) as char);
    }
    crate::text::push_char(&mut s, ((48 + n % 10) as u8) as char);
    proof {
        let m = n as nat;
        if m >= 100 {
            assert(decimal_digits(m / 10) == decimal_digits(m / 100).push(((48 + (m / 10) % 10) as u8) as char));
            assert(decimal_digits(m / 100) == seq![((48 + m / 100) as u8) as char]);
            assert((m / 10) / 10 == m / 100);
        } else if m >= 10 {
            assert(decimal_digits(m / 10) == seq![((48 + m / 10) as u8) as char]);
            assert((m / 10) % 10 == m / 10);
        }
        assert(s@ =~= decimal_digits(m));
    }
    s
}

impl CompressionLevel {
    /// The text of the level.
    pub fn to_string(&self) -> (r: String)
        ensures
            r@ == level_text_of(*self),
    {
        match self {
            CompressionLevel::Quick => String::from_str("quick"),
            CompressionLevel::Fast => String::from_str("fast"),
            CompressionLevel::Balanced => String::from_str("balanced"),
            CompressionLevel::Good => String::from_str("good"),
            CompressionLevel::Best => String::from_str("best"),
            CompressionLevel::Default => String::from_str("default"),
            CompressionLevel::Custom(v) => {
                if *v < 0 {
                    let m: u8 = (-(*v as i16)) as u8;
                    let mut s = String::new();
                    crate::text::push_char(&mut s, '-');
                    let d = digits_text(m);
                    let r = s.concat(d.as_str());
                    assert(r@ =~= seq!['-'] + decimal_digits((-(*v as int)) as nat));
                    r
                } else {
                    digits_text(*v as u8)
                }
            },
        }
    }
}

/// The algorithm and level a compressor text names: `name` or
/// `name:level`, the level `default` when it is left out.
pub open spec fn compressor_named(s: Seq<char>) -> Option<(CompressionAlgorithm, CompressionLevel)> {
    let i = crate::text::first_index(s, ':');
    let name = if i < 0 { s } else { s.subrange(0, i) };
    let level = if i < 0 { "default"@ } else { s.subrange(i + 1, s.len() as int) };
    match (algorithm_named(name), level_named(level)) {
        (Some(a), Some(l)) => Some((a, l)),
        _ => None,
    }
}

impl Compressor {
    /// A compressor from its text: `name` or `name:level`.
    pub fn from_str(s: &str) -> (r: Result<Compressor, CompressionError>)
        ensures
            match r {
                Ok(c) => compressor_named(s@) == Some((c.algorithm, c.level)) && c.input@.len() == 0
                    && c.output@.len() == 0,
                Err(CompressionError::UnknownAlgorithm(_)) => compressor_named(s@).is_none(),
                Err(CompressionError::InvalidLevel(_)) => compressor_named(s@).is_none() || !level_fits(
                    compressor_named(s@)->Some_0.0,
                    compressor_named(s@)->Some_0.1,
                ),
                Err(_) => false,
            },
    {
        let c = chars_of(s);
        let (name, level) = match find_char(c.as_slice(), ':') {
            Some(i) => {
                assert(i < c.len());
                (string_of(slice_of(c.as_slice(), 0, i).as_slice()), string_of(slice_of(c.as_slice(), i + 1, c.len()).as_slice()))
            },
            None => {
                assert(c@.subrange(0, c@.len() as int) =~= c@);
                (string_of(slice_of(c.as_slice(), 0, c.len()).as_slice()), String::from_str("default"))
            },
        };
        let algorithm = match CompressionAlgorithm::from_str(name.as_str()) {
            Ok(a) => a,
            Err(e) => {
                return Err(e);
            },
        };
        let level = match CompressionLevel::from_str(level.as_str()) {
            Ok(l) => l,
            Err(e) => {
                return Err(e);
            },
        };
        Compressor::new(algorithm, level)
    }
}

impl Decompressor {
    /// A decompressor from an algorithm's name.
    pub fn from_str(s: &str) -> (r: Result<Decompressor, CompressionError>)
        ensures
            match r {
                Ok(d) => algorithm_named(s@) == Some(d.algorithm) && d.input@.len() == 0,
                Err(CompressionError::UnknownAlgorithm(e)) => algorithm_named(s@).is_none() && e@ == s@,
                Err(_) => false,
            },
    {
        match CompressionAlgorithm::from_str(s) {
            Ok(a) => Decompressor::new(a),
            Err(e) => Err(e),
        }
    }
}

} // verus!
