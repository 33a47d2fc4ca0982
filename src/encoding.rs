use vstd::prelude::*;
use crate::text::{chars_of, is_text};
use base64::Engine;

verus! {

/// Variants of base32: RFC 4648 or its hex alphabet, in lower case, with
/// or without padding.
#[derive(Debug, Clone, Copy, PartialEq, Eq, Structural)]
pub enum Base32Variant {
    Pad,
    NoPad,
    HexPad,
    HexNoPad,
}

/// Variants of base64: standard or URL-safe alphabet, with or without
/// padding.
#[derive(Debug, Clone, Copy, PartialEq, Eq, Structural)]
pub enum Base64Variant {
    Pad,
    NoPad,
    UrlSafePad,
    UrlSafeNoPad,
}

/// The encodings of the `str` namespace.
#[derive(Debug, Clone, Copy, PartialEq, Eq, Structural)]
pub enum StringEncoding {
    Base16,
    Base32(Base32Variant),
    Base64(Base64Variant),
    Json,
    Toml,
    Yaml,
}

pub open spec fn encoding_named(s: Seq<char>) -> Option<StringEncoding> {
    if s == "base16"@ || s == "hex"@ {
        Some(StringEncoding::Base16)
    } else if s == "base32"@ || s == "base32/pad"@ {
        Some(StringEncoding::Base32(Base32Variant::Pad))
    } else if s == "base32/nopad"@ {
        Some(StringEncoding::Base32(Base32Variant::NoPad))
    } else if s == "base32/hex-pad"@ {
        Some(StringEncoding::Base32(Base32Variant::HexPad))
    } else if s == "base32/hex-nopad"@ {
        Some(StringEncoding::Base32(Base32Variant::HexNoPad))
    } else if s == "base64"@ || s == "base64/pad"@ {
        Some(StringEncoding::Base64(Base64Variant::Pad))
    } else if s == "base64/nopad"@ {
        Some(StringEncoding::Base64(Base64Variant::NoPad))
    } else if s == "base64/urlsafe-pad"@ {
        Some(StringEncoding::Base64(Base64Variant::UrlSafePad))
    } else if s == "base64/urlsafe-nopad"@ {
        Some(StringEncoding::Base64(Base64Variant::UrlSafeNoPad))
    } else if s == "json"@ {
        Some(StringEncoding::Json)
    } else if s == "toml"@ {
        Some(StringEncoding::Toml)
    } else if s == "yaml"@ {
        Some(StringEncoding::Yaml)
    } else {
        None
    }
}

/// The lowercase hex digit of a value below 16.
pub open spec fn hex_digit(v: u8) -> char {
    if v < 10 {
        ((48 + v) as u8) as char
    } else {
        ((87 + v) as u8) as char
    }
}

/// The value of a hex digit, in either case.
pub open spec fn hex_value(c: char) -> Option<u8> {
    if '0' <= c && c <= '9' {
        Some((c as u32 - 48) as u8)
    } else if 'a' <= c && c <= 'f' {
        Some((c as u32 - 87) as u8)
    } else if 'A' <= c && c <= 'F' {
        Some((c as u32 - 55) as u8)
    } else {
        None
    }
}

/// Two lowercase hex digits per byte.
pub open spec fn hex_text(b: Seq<u8>) -> Seq<char>
    decreases b.len(),
{
    if b.len() == 0 {
        Seq::empty()
    } else {
        hex_text(b.drop_last()) + seq![hex_digit(b.last() / 16), hex_digit(b.last() % 16)]
    }
}

/// The bytes a hex text stands for: pairs of digits; none for an odd
/// length or a character that is no hex digit.
pub open spec fn hex_bytes(s: Seq<char>) -> Option<Seq<u8>>
    decreases s.len(),
{
    if s.len() % 2 == 1 {
        None
    } else if s.len() == 0 {
        Some(Seq::empty())
    } else {
        match hex_bytes(s.subrange(0, s.len() - 2)) {
            None => None,
            Some(p) => match (hex_value(s[s.len() - 2]), hex_value(s[s.len() - 1])) {
                (Some(hi), Some(lo)) => Some(p.push((hi * 16 + lo) as u8)),
                _ => None,
            },
        }
    }
}

proof fn lemma_hex_text_len(b: Seq<u8>)
    ensures
        hex_text(b).len() == 2 * b.len(),
    decreases b.len(),
{
    if b.len() > 0 {
        lemma_hex_text_len(b.drop_last());
    }
}

/// Decoding the hex text of some bytes gives the bytes back.
pub proof fn lemma_hex_round_trip(b: Seq<u8>)
    ensures
        hex_bytes(hex_text(b)) == Some(b),
    decreases b.len(),
{
    lemma_hex_text_len(b);
    if b.len() > 0 {
        let s = hex_text(b);
        let p = b.drop_last();
        lemma_hex_round_trip(p);
        lemma_hex_text_len(p);
        assert(s.subrange(0, s.len() - 2) =~= hex_text(p));
        let x = b.last();
        assert(s[s.len() - 2] == hex_digit(x / 16));
        assert(s[s.len() - 1] == hex_digit(x % 16));
        assert(hex_value(hex_digit(x / 16)) == Some(x / 16));
        assert(hex_value(hex_digit(x % 16)) == Some(x % 16));
        assert(((x / 16) * 16 + x % 16) as u8 == x);
        assert(p.push(x) =~= b);
    } else {
        assert(b =~= Seq::<u8>::empty());
    }
}

/// Relies on `hex::encode`: two lowercase hex digits per byte, in order.
#[verifier::external_body]
fn hex_encode(b: &[u8]) -> (r: String)
    ensures
        r@ == hex_text(b@),
{
    hex::encode(b)
}

/// Relies on `hex::decode`: fails on an odd length or a character that is
/// no hex digit (either case), else gives one byte per pair of digits.
#[verifier::external_body]
fn hex_decode(s: &str) -> (r: Option<Vec<u8>>)
    ensures
        match r {
            Some(v) => hex_bytes(s@) == Some(v@),
            None => hex_bytes(s@).is_none(),
        },
{
    hex::decode(s).ok()
}

/// The base32 text of some bytes in a variant (0 to 3: padded, unpadded,
/// hex alphabet padded, hex alphabet unpadded; all lowercase).
pub uninterp spec fn base32_text_of(b: Seq<u8>, variant: u8) -> Seq<char>;

/// The bytes a base32 text decodes to in a variant, if it is valid.
pub uninterp spec fn base32_bytes_of(s: Seq<char>, variant: u8) -> Option<Seq<u8>>;

/// The base64 text of some bytes in a variant (0 to 3: standard padded,
/// standard unpadded, URL-safe padded, URL-safe unpadded).
pub uninterp spec fn base64_text_of(b: Seq<u8>, variant: u8) -> Seq<char>;

/// The bytes a base64 text decodes to in a variant, if it is valid.
pub uninterp spec fn base64_bytes_of(s: Seq<char>, variant: u8) -> Option<Seq<u8>>;

pub open spec fn base32_code(v: Base32Variant) -> u8 {
    match v {
        Base32Variant::Pad => 0,
        Base32Variant::NoPad => 1,
        Base32Variant::HexPad => 2,
        Base32Variant::HexNoPad => 3,
    }
}

pub open spec fn base64_code(v: Base64Variant) -> u8 {
    match v {
        Base64Variant::Pad => 0,
        Base64Variant::NoPad => 1,
        Base64Variant::UrlSafePad => 2,
        Base64Variant::UrlSafeNoPad => 3,
    }
}

/// Relies on `base32::encode` with the lowercase RFC 4648 alphabets.
#[verifier::external_body]
fn base32_encode(b: &[u8], v: Base32Variant) -> (r: String)
    ensures
        r@ == base32_text_of(b@, base32_code(v)),
{
    let alphabet = match v {
        Base32Variant::Pad => base32::Alphabet::Rfc4648Lower { padding: true },
        Base32Variant::NoPad => base32::Alphabet::Rfc4648Lower { padding: false },
        Base32Variant::HexPad => base32::Alphabet::Rfc4648HexLower { padding: true },
        Base32Variant::HexNoPad => base32::Alphabet::Rfc4648HexLower { padding: false },
    };
    base32::encode(alphabet, b)
}

/// Relies on `base32::decode` with the lowercase RFC 4648 alphabets.
#[verifier::external_body]
fn base32_decode(s: &str, v: Base32Variant) -> (r: Option<Vec<u8>>)
    ensures
        match r {
            Some(x) => base32_bytes_of(s@, base32_code(v)) == Some(x@),
            None => base32_bytes_of(s@, base32_code(v)).is_none(),
        },
{
    let alphabet = match v {
        Base32Variant::Pad => base32::Alphabet::Rfc4648Lower { padding: true },
        Base32Variant::NoPad => base32::Alphabet::Rfc4648Lower { padding: false },
        Base32Variant::HexPad => base32::Alphabet::Rfc4648HexLower { padding: true },
        Base32Variant::HexNoPad => base32::Alphabet::Rfc4648HexLower { padding: false },
    };
    base32::decode(alphabet, s)
}

/// Relies on `base64::engine::GeneralPurpose::encode` with the standard or
/// URL-safe alphabet and the variant's padding.
#[verifier::external_body]
fn base64_encode(b: &[u8], v: Base64Variant) -> (r: String)
    ensures
        r@ == base64_text_of(b@, base64_code(v)),
{
    let (alphabet, pad) = match v {
        Base64Variant::Pad => (&base64::alphabet::STANDARD, true),
        Base64Variant::NoPad => (&base64::alphabet::STANDARD, false),
        Base64Variant::UrlSafePad => (&base64::alphabet::URL_SAFE, true),
        Base64Variant::UrlSafeNoPad => (&base64::alphabet::URL_SAFE, false),
    };
    let config = base64::engine::GeneralPurposeConfig::new().with_encode_padding(pad);
    base64::engine::GeneralPurpose::new(alphabet, config).encode(b)
}

/// Relies on `base64::engine::GeneralPurpose::decode` with the standard or
/// URL-safe alphabet; padded variants require canonical padding, unpadded
/// ones require none.
#[verifier::external_body]
fn base64_decode(s: &str, v: Base64Variant) -> (r: Option<Vec<u8>>)
    ensures
        match r {
            Some(x) => base64_bytes_of(s@, base64_code(v)) == Some(x@),
            None => base64_bytes_of(s@, base64_code(v)).is_none(),
        },
{
    let (alphabet, pad, mode) = match v {
        Base64Variant::Pad => (&base64::alphabet::STANDARD, true, base64::engine::DecodePaddingMode::RequireCanonical),
        Base64Variant::NoPad => (&base64::alphabet::STANDARD, false, base64::engine::DecodePaddingMode::RequireNone),
        Base64Variant::UrlSafePad => (&base64::alphabet::URL_SAFE, true, base64::engine::DecodePaddingMode::RequireCanonical),
        Base64Variant::UrlSafeNoPad => (&base64::alphabet::URL_SAFE, false, base64::engine::DecodePaddingMode::RequireNone),
    };
    let config = base64::engine::GeneralPurposeConfig::new().with_encode_padding(pad)
        .with_decode_padding_mode(mode);
    base64::engine::GeneralPurpose::new(alphabet, config).decode(s).ok()
}

/// The text of some bytes in an encoding; none for the value encodings
/// (JSON, TOML, YAML), which take values rather than bytes.
pub open spec fn bytes_text(e: StringEncoding, b: Seq<u8>) -> Option<Seq<char>> {
    match e {
        StringEncoding::Base16 => Some(hex_text(b)),
        StringEncoding::Base32(v) => Some(base32_text_of(b, base32_code(v))),
        StringEncoding::Base64(v) => Some(base64_text_of(b, base64_code(v))),
        _ => None,
    }
}

/// The bytes a text stands for in an encoding; none when it is not valid
/// or the encoding takes values rather than bytes.
pub open spec fn text_bytes(e: StringEncoding, s: Seq<char>) -> Option<Seq<u8>> {
    match e {
        StringEncoding::Base16 => hex_bytes(s),
        StringEncoding::Base32(v) => base32_bytes_of(s, base32_code(v)),
        StringEncoding::Base64(v) => base64_bytes_of(s, base64_code(v)),
        _ => None,
    }
}

impl StringEncoding {
    /// The encoding a name stands for.
    pub fn from_name(name: &str) -> (r: Option<StringEncoding>)
        ensures
            r == encoding_named(name@),
    {
        let c = chars_of(name);
        let c = c.as_slice();
        if is_text(c, "base16") || is_text(c, "hex") {
            Some(StringEncoding::Base16)
        } else if is_text(c, "base32") || is_text(c, "base32/pad") {
            Some(StringEncoding::Base32(Base32Variant::Pad))
        } else if is_text(c, "base32/nopad") {
            Some(StringEncoding::Base32(Base32Variant::NoPad))
        } else if is_text(c, "base32/hex-pad") {
            Some(StringEncoding::Base32(Base32Variant::HexPad))
        } else if is_text(c, "base32/hex-nopad") {
            Some(StringEncoding::Base32(Base32Variant::HexNoPad))
        } else if is_text(c, "base64") || is_text(c, "base64/pad") {
            Some(StringEncoding::Base64(Base64Variant::Pad))
        } else if is_text(c, "base64/nopad") {
            Some(StringEncoding::Base64(Base64Variant::NoPad))
        } else if is_text(c, "base64/urlsafe-pad") {
            Some(StringEncoding::Base64(Base64Variant::UrlSafePad))
        } else if is_text(c, "base64/urlsafe-nopad") {
            Some(StringEncoding::Base64(Base64Variant::UrlSafeNoPad))
        } else if is_text(c, "json") {
            Some(StringEncoding::Json)
        } else if is_text(c, "toml") {
            Some(StringEncoding::Toml)
        } else if is_text(c, "yaml") {
            Some(StringEncoding::Yaml)
        } else {
            None
        }
    }

    /// Encode bytes; none for the value encodings.
    pub fn encode_bytes(&self, b: &[u8]) -> (r: Option<String>)
        ensures
            match r {
                Some(s) => bytes_text(*self, b@) == Some(s@),
                None => bytes_text(*self, b@).is_none(),
            },
    {
        match self {
            StringEncoding::Base16 => Some(hex_encode(b)),
            StringEncoding::Base32(v) => Some(base32_encode(b, *v)),
            StringEncoding::Base64(v) => Some(base64_encode(b, *v)),
            _ => None,
        }
    }

    /// Decode a text to bytes; none when it is not valid, or for the
    /// value encodings.
    pub fn decode_bytes(&self, s: &str) -> (r: Option<Vec<u8>>)
        ensures
            match r {
                Some(v) => text_bytes(*self, s@) == Some(v@),
                None => text_bytes(*self, s@).is_none(),
            },
    {
        match self {
            StringEncoding::Base16 => hex_decode(s),
            StringEncoding::Base32(v) => base32_decode(s, *v),
            StringEncoding::Base64(v) => base64_decode(s, *v),
            _ => None,
        }
    }
}

} // verus!
