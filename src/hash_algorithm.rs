use vstd::prelude::*;
use crate::text::{chars_of, is_text};

verus! {
/// The hash algorithms of the catalog.
#[allow(non_camel_case_types)]
#[derive(Debug, Clone, Copy, PartialEq, Eq, Structural)]
pub enum HashAlgorithm {
    Seahash,
    Crc32,
    Crc32c,
    Siphash_1_3_64,
    Siphash_1_3_128,
    Siphash_2_4_64,
    Siphash_2_4_128,
    Xxh_32,
    Xxh_64,
    Xxh3_64,
    Xxh3_128,
    Md5,
    Sha1,
    Sha2_224,
    Sha2_256,
    Sha2_384,
    Sha2_512,
    Sha2_512_224,
    Sha2_512_256,
    Shake_128,
    Shake_256,
    TurboShake_128,
    TurboShake_256,
    CShake_128,
    CShake_256,
    Keccak_224,
    Keccak_256,
    Keccak_256_Full,
    Keccak_384,
    Keccak_512,
    Sha3_224,
    Sha3_256,
    Sha3_384,
    Sha3_512,
    Blake2s,
    Blake2b,
    Blake3,
}

/// The name of an algorithm.
pub open spec fn hash_algorithm_name(a: HashAlgorithm) -> Seq<char> {
    match a {
        HashAlgorithm::Seahash => "seahash"@,
        HashAlgorithm::Crc32 => "crc32"@,
        HashAlgorithm::Crc32c => "crc32c"@,
        HashAlgorithm::Siphash_1_3_64 => "siphash-1-3-64"@,
        HashAlgorithm::Siphash_1_3_128 => "siphash-1-3-128"@,
        HashAlgorithm::Siphash_2_4_64 => "siphash-2-4-64"@,
        HashAlgorithm::Siphash_2_4_128 => "siphash-2-4-128"@,
        HashAlgorithm::Xxh_32 => "xxh-32"@,
        HashAlgorithm::Xxh_64 => "xxh-64"@,
        HashAlgorithm::Xxh3_64 => "xxh3-64"@,
        HashAlgorithm::Xxh3_128 => "xxh3-128"@,
        HashAlgorithm::Md5 => "md5"@,
        HashAlgorithm::Sha1 => "sha1"@,
        HashAlgorithm::Sha2_224 => "sha2-224"@,
        HashAlgorithm::Sha2_256 => "sha2-256"@,
        HashAlgorithm::Sha2_384 => "sha2-384"@,
        HashAlgorithm::Sha2_512 => "sha2-512"@,
        HashAlgorithm::Sha2_512_224 => "sha2-512/224"@,
        HashAlgorithm::Sha2_512_256 => "sha2-512/256"@,
        HashAlgorithm::Shake_128 => "shake-128"@,
        HashAlgorithm::Shake_256 => "shake-256"@,
        HashAlgorithm::TurboShake_128 => "turboshake-128"@,
        HashAlgorithm::TurboShake_256 => "turboshake-256"@,
        HashAlgorithm::CShake_128 => "cshake-128"@,
        HashAlgorithm::CShake_256 => "cshake-256"@,
        HashAlgorithm::Keccak_224 => "keccak-224"@,
        HashAlgorithm::Keccak_256 => "keccak-256"@,
        HashAlgorithm::Keccak_256_Full => "keccak-256-full"@,
        HashAlgorithm::Keccak_384 => "keccak-384"@,
        HashAlgorithm::Keccak_512 => "keccak-512"@,
        HashAlgorithm::Sha3_224 => "sha3-224"@,
        HashAlgorithm::Sha3_256 => "sha3-256"@,
        HashAlgorithm::Sha3_384 => "sha3-384"@,
        HashAlgorithm::Sha3_512 => "sha3-512"@,
        HashAlgorithm::Blake2s => "blake2s"@,
        HashAlgorithm::Blake2b => "blake2b"@,
        HashAlgorithm::Blake3 => "blake3"@,
    }
}

/// The algorithm a lowercase name (or one of its aliases) stands for.
pub open spec fn hash_algorithm_named(s: Seq<char>) -> Option<HashAlgorithm> {
    if s == "seahash"@ {
        Some(HashAlgorithm::Seahash)
    } else if s == "crc32"@ {
        Some(HashAlgorithm::Crc32)
    } else if s == "crc32c"@ {
        Some(HashAlgorithm::Crc32c)
    } else if s == "siphash-1-3-64"@ || s == "siphash-1-3"@ {
        Some(HashAlgorithm::Siphash_1_3_64)
    } else if s == "siphash-1-3-128"@ {
        Some(HashAlgorithm::Siphash_1_3_128)
    } else if s == "siphash-2-4-64"@ || s == "siphash-2-4"@ || s == "siphash"@ {
        Some(HashAlgorithm::Siphash_2_4_64)
    } else if s == "siphash-2-4-128"@ {
        Some(HashAlgorithm::Siphash_2_4_128)
    } else if s == "xxh-32"@ || s == "xxh32"@ {
        Some(HashAlgorithm::Xxh_32)
    } else if s == "xxh-64"@ || s == "xxh64"@ {
        Some(HashAlgorithm::Xxh_64)
    } else if s == "xxh3-64"@ || s == "xxh3"@ {
        Some(HashAlgorithm::Xxh3_64)
    } else if s == "xxh3-128"@ {
        Some(HashAlgorithm::Xxh3_128)
    } else if s == "md5"@ {
        Some(HashAlgorithm::Md5)
    } else if s == "sha1"@ {
        Some(HashAlgorithm::Sha1)
    } else if s == "sha2-224"@ {
        Some(HashAlgorithm::Sha2_224)
    } else if s == "sha2-256"@ || s == "sha2"@ {
        Some(HashAlgorithm::Sha2_256)
    } else if s == "sha2-384"@ {
        Some(HashAlgorithm::Sha2_384)
    } else if s == "sha2-512"@ {
        Some(HashAlgorithm::Sha2_512)
    } else if s == "sha2-512/224"@ || s == "sha2-512-224"@ {
        Some(HashAlgorithm::Sha2_512_224)
    } else if s == "sha2-512/256"@ || s == "sha2-512-256"@ {
        Some(HashAlgorithm::Sha2_512_256)
    } else if s == "shake-128"@ || s == "shake128"@ {
        Some(HashAlgorithm::Shake_128)
    } else if s == "shake-256"@ || s == "shake256"@ {
        Some(HashAlgorithm::Shake_256)
    } else if s == "turboshake-128"@ || s == "turboshake128"@ {
        Some(HashAlgorithm::TurboShake_128)
    } else if s == "turboshake-256"@ || s == "turboshake256"@ {
        Some(HashAlgorithm::TurboShake_256)
    } else if s == "cshake-128"@ || s == "cshake128"@ {
        Some(HashAlgorithm::CShake_128)
    } else if s == "cshake-256"@ || s == "cshake256"@ {
        Some(HashAlgorithm::CShake_256)
    } else if s == "keccak-224"@ || s == "keccak224"@ {
        Some(HashAlgorithm::Keccak_224)
    } else if s == "keccak-256"@ || s == "keccak256"@ {
        Some(HashAlgorithm::Keccak_256)
    } else if s == "keccak-256-full"@ || s == "keccak256-full"@ || s == "keccak256full"@ {
        Some(HashAlgorithm::Keccak_256_Full)
    } else if s == "keccak-384"@ || s == "keccak384"@ {
        Some(HashAlgorithm::Keccak_384)
    } else if s == "keccak-512"@ || s == "keccak512"@ {
        Some(HashAlgorithm::Keccak_512)
    } else if s == "sha3-224"@ {
        Some(HashAlgorithm::Sha3_224)
    } else if s == "sha3-256"@ {
        Some(HashAlgorithm::Sha3_256)
    } else if s == "sha3-384"@ {
        Some(HashAlgorithm::Sha3_384)
    } else if s == "sha3-512"@ {
        Some(HashAlgorithm::Sha3_512)
    } else if s == "blake2s"@ {
        Some(HashAlgorithm::Blake2s)
    } else if s == "blake2b"@ {
        Some(HashAlgorithm::Blake2b)
    } else if s == "blake3"@ {
        Some(HashAlgorithm::Blake3)
    } else {
        None
    }
}

/// ASCII letters in lower case, other characters unchanged.
pub open spec fn ascii_lower(c: char) -> char {
    if 'A' <= c && c <= 'Z' {
        ((c as u8) + 32) as char
    } else {
        c
    }
}

/// A text with its ASCII letters in lower case.
pub fn to_ascii_lowercase(s: &[char]) -> (r: Vec<char>)
    ensures
        r@ == s@.map_values(|c: char| ascii_lower(c)),
{
    let mut out: Vec<char> = Vec::new();
    let mut i: usize = 0;
    while i < s.len()
        invariant
            i <= s@.len(),
            out@ == s@.subrange(0, i as int).map_values(|c: char| ascii_lower(c)),
        decreases s.len() - i,
    {
        let c = s[i];
        let l = if 'A' <= c && c <= 'Z' {
            ((c as u8) + 32) as char
        } else {
            c
        };
        out.push(l);
        proof {
            assert(s@.subrange(0, i + 1).map_values(|c: char| ascii_lower(c)) =~= s@.subrange(0, i as int).map_values(|c: char| ascii_lower(c)).push(l));
        }
        i += 1;
    }
    assert(s@.subrange(0, i as int) =~= s@);
    out
}

impl HashAlgorithm {
    /// The name of the algorithm.
    pub fn name(&self) -> (r: &'static str)
        ensures
            r@ == hash_algorithm_name(*self),
    {
        match self {
            HashAlgorithm::Seahash => "seahash",
            HashAlgorithm::Crc32 => "crc32",
            HashAlgorithm::Crc32c => "crc32c",
            HashAlgorithm::Siphash_1_3_64 => "siphash-1-3-64",
            HashAlgorithm::Siphash_1_3_128 => "siphash-1-3-128",
            HashAlgorithm::Siphash_2_4_64 => "siphash-2-4-64",
            HashAlgorithm::Siphash_2_4_128 => "siphash-2-4-128",
            HashAlgorithm::Xxh_32 => "xxh-32",
            HashAlgorithm::Xxh_64 => "xxh-64",
            HashAlgorithm::Xxh3_64 => "xxh3-64",
            HashAlgorithm::Xxh3_128 => "xxh3-128",
            HashAlgorithm::Md5 => "md5",
            HashAlgorithm::Sha1 => "sha1",
            HashAlgorithm::Sha2_224 => "sha2-224",
            HashAlgorithm::Sha2_256 => "sha2-256",
            HashAlgorithm::Sha2_384 => "sha2-384",
            HashAlgorithm::Sha2_512 => "sha2-512",
            HashAlgorithm::Sha2_512_224 => "sha2-512/224",
            HashAlgorithm::Sha2_512_256 => "sha2-512/256",
            HashAlgorithm::Shake_128 => "shake-128",
            HashAlgorithm::Shake_256 => "shake-256",
            HashAlgorithm::TurboShake_128 => "turboshake-128",
            HashAlgorithm::TurboShake_256 => "turboshake-256",
            HashAlgorithm::CShake_128 => "cshake-128",
            HashAlgorithm::CShake_256 => "cshake-256",
            HashAlgorithm::Keccak_224 => "keccak-224",
            HashAlgorithm::Keccak_256 => "keccak-256",
            HashAlgorithm::Keccak_256_Full => "keccak-256-full",
            HashAlgorithm::Keccak_384 => "keccak-384",
            HashAlgorithm::Keccak_512 => "keccak-512",
            HashAlgorithm::Sha3_224 => "sha3-224",
            HashAlgorithm::Sha3_256 => "sha3-256",
            HashAlgorithm::Sha3_384 => "sha3-384",
            HashAlgorithm::Sha3_512 => "sha3-512",
            HashAlgorithm::Blake2s => "blake2s",
            HashAlgorithm::Blake2b => "blake2b",
            HashAlgorithm::Blake3 => "blake3",
        }
    }

    /// The algorithm a name stands for, letters in any case; an unknown
    /// name is handed back as the error.
    pub fn from_str(s: &str) -> (r: Result<HashAlgorithm, String>)
        ensures
            match r {
                Ok(a) => hash_algorithm_named(s@.map_values(|c: char| ascii_lower(c))) == Some(a),
                Err(e) => hash_algorithm_named(s@.map_values(|c: char| ascii_lower(c))).is_none() && e@ == s@,
            },
    {
        let raw = chars_of(s);
        let low = to_ascii_lowercase(raw.as_slice());
        let c = low.as_slice();
        if is_text(c, "seahash") {
            Ok(HashAlgorithm::Seahash)
        } else if is_text(c, "crc32") {
            Ok(HashAlgorithm::Crc32)
        } else if is_text(c, "crc32c") {
            Ok(HashAlgorithm::Crc32c)
        } else if is_text(c, "siphash-1-3-64") || is_text(c, "siphash-1-3") {
            Ok(HashAlgorithm::Siphash_1_3_64)
        } else if is_text(c, "siphash-1-3-128") {
            Ok(HashAlgorithm::Siphash_1_3_128)
        } else if is_text(c, "siphash-2-4-64") || is_text(c, "siphash-2-4") || is_text(c, "siphash") {
            Ok(HashAlgorithm::Siphash_2_4_64)
        } else if is_text(c, "siphash-2-4-128") {
            Ok(HashAlgorithm::Siphash_2_4_128)
        } else if is_text(c, "xxh-32") || is_text(c, "xxh32") {
            Ok(HashAlgorithm::Xxh_32)
        } else if is_text(c, "xxh-64") || is_text(c, "xxh64") {
            Ok(HashAlgorithm::Xxh_64)
        } else if is_text(c, "xxh3-64") || is_text(c, "xxh3") {
            Ok(HashAlgorithm::Xxh3_64)
        } else if is_text(c, "xxh3-128") {
            Ok(HashAlgorithm::Xxh3_128)
        } else if is_text(c, "md5") {
            Ok(HashAlgorithm::Md5)
        } else if is_text(c, "sha1") {
            Ok(HashAlgorithm::Sha1)
        } else if is_text(c, "sha2-224") {
            Ok(HashAlgorithm::Sha2_224)
        } else if is_text(c, "sha2-256") || is_text(c, "sha2") {
            Ok(HashAlgorithm::Sha2_256)
        } else if is_text(c, "sha2-384") {
            Ok(HashAlgorithm::Sha2_384)
        } else if is_text(c, "sha2-512") {
            Ok(HashAlgorithm::Sha2_512)
        } else if is_text(c, "sha2-512/224") || is_text(c, "sha2-512-224") {
            Ok(HashAlgorithm::Sha2_512_224)
        } else if is_text(c, "sha2-512/256") || is_text(c, "sha2-512-256") {
            Ok(HashAlgorithm::Sha2_512_256)
        } else if is_text(c, "shake-128") || is_text(c, "shake128") {
            Ok(HashAlgorithm::Shake_128)
        } else if is_text(c, "shake-256") || is_text(c, "shake256") {
            Ok(HashAlgorithm::Shake_256)
        } else if is_text(c, "turboshake-128") || is_text(c, "turboshake128") {
            Ok(HashAlgorithm::TurboShake_128)
        } else if is_text(c, "turboshake-256") || is_text(c, "turboshake256") {
            Ok(HashAlgorithm::TurboShake_256)
        } else if is_text(c, "cshake-128") || is_text(c, "cshake128") {
            Ok(HashAlgorithm::CShake_128)
        } else if is_text(c, "cshake-256") || is_text(c, "cshake256") {
            Ok(HashAlgorithm::CShake_256)
        } else if is_text(c, "keccak-224") || is_text(c, "keccak224") {
            Ok(HashAlgorithm::Keccak_224)
        } else if is_text(c, "keccak-256") || is_text(c, "keccak256") {
            Ok(HashAlgorithm::Keccak_256)
        } else if is_text(c, "keccak-256-full") || is_text(c, "keccak256-full") || is_text(c, "keccak256full") {
            Ok(HashAlgorithm::Keccak_256_Full)
        } else if is_text(c, "keccak-384") || is_text(c, "keccak384") {
            Ok(HashAlgorithm::Keccak_384)
        } else if is_text(c, "keccak-512") || is_text(c, "keccak512") {
            Ok(HashAlgorithm::Keccak_512)
        } else if is_text(c, "sha3-224") {
            Ok(HashAlgorithm::Sha3_224)
        } else if is_text(c, "sha3-256") {
            Ok(HashAlgorithm::Sha3_256)
        } else if is_text(c, "sha3-384") {
            Ok(HashAlgorithm::Sha3_384)
        } else if is_text(c, "sha3-512") {
            Ok(HashAlgorithm::Sha3_512)
        } else if is_text(c, "blake2s") {
            Ok(HashAlgorithm::Blake2s)
        } else if is_text(c, "blake2b") {
            Ok(HashAlgorithm::Blake2b)
        } else if is_text(c, "blake3") {
            Ok(HashAlgorithm::Blake3)
        } else {
            Err(String::from_str(s))
        }
    }
}

} // verus!
