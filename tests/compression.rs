use wineyard::compression::{
    compress, decompress, CompressionAlgorithm, CompressionError, CompressionLevel, Compressor,
    Decompressor,
};

const LEVELS: &[CompressionLevel] = &[
    CompressionLevel::Quick,
    CompressionLevel::Fast,
    CompressionLevel::Balanced,
    CompressionLevel::Good,
    CompressionLevel::Best,
    CompressionLevel::Default,
];

fn round_trip(algorithm: CompressionAlgorithm) -> Result<(), CompressionError> {
    for level in LEVELS {
        let mut compressor = Compressor::new(algorithm, *level)?;
        let mut decompressor = Decompressor::new(algorithm)?;

        compressor.write_all(b"Hello, ")?;
        compressor.write_all(b"World! ")?;
        compressor.write_all(b"AAAAAAAAAAAAAAAAAAAA")?;
        compressor.flush()?;
        compressor.try_finish()?;

        let mut compressed = Vec::new();

        compressor.read_to_end(&mut compressed)?;

        decompressor.write_all(&compressed)?;
        decompressor.flush()?;

        let mut decompressed = Vec::new();

        decompressor.read_to_end(&mut decompressed)?;

        assert_eq!(decompressed, b"Hello, World! AAAAAAAAAAAAAAAAAAAA");
    }

    Ok(())
}

#[test]
fn lz4() -> Result<(), CompressionError> {
    round_trip(CompressionAlgorithm::Lz4)
}

#[test]
fn bzip2() -> Result<(), CompressionError> {
    round_trip(CompressionAlgorithm::Bzip2)
}

#[test]
fn deflate() -> Result<(), CompressionError> {
    round_trip(CompressionAlgorithm::Deflate)
}

#[test]
fn gzip() -> Result<(), CompressionError> {
    round_trip(CompressionAlgorithm::Gzip)
}

#[test]
fn zlib() -> Result<(), CompressionError> {
    round_trip(CompressionAlgorithm::Zlib)
}

#[test]
fn zstd() -> Result<(), CompressionError> {
    round_trip(CompressionAlgorithm::Zstd)
}

#[test]
fn one_shot_round_trip_on_empty_and_custom_levels() {
    for algorithm in [
        CompressionAlgorithm::Lz4,
        CompressionAlgorithm::Bzip2,
        CompressionAlgorithm::Deflate,
        CompressionAlgorithm::Gzip,
        CompressionAlgorithm::Zlib,
        CompressionAlgorithm::Zstd,
    ] {
        for data in [&b""[..], &b"x"[..], &[7u8; 1000][..]] {
            let packed = compress(algorithm, CompressionLevel::Custom(2), data).unwrap();
            assert_eq!(decompress(algorithm, &packed).unwrap(), data);
        }
    }
}

#[test]
fn compressed_bytes_differ_from_input() {
    let data = [b'A'; 200];
    let packed = compress(CompressionAlgorithm::Zstd, CompressionLevel::Default, &data).unwrap();
    assert_ne!(packed, data.to_vec());
    assert!(packed.len() < data.len());
}

#[test]
fn invalid_levels_are_refused() {
    assert!(matches!(
        Compressor::new(CompressionAlgorithm::Bzip2, CompressionLevel::Custom(0)),
        Err(CompressionError::InvalidLevel(_))
    ));
    assert!(matches!(
        Compressor::new(CompressionAlgorithm::Gzip, CompressionLevel::Custom(12)),
        Err(CompressionError::InvalidLevel(_))
    ));
    assert!(Compressor::new(CompressionAlgorithm::Zstd, CompressionLevel::Custom(-5)).is_ok());
}

#[test]
fn garbage_does_not_decompress() {
    assert!(matches!(
        decompress(CompressionAlgorithm::Gzip, b"not a gzip stream"),
        Err(CompressionError::Io(_))
    ));
}

#[test]
fn algorithm_and_level_names() {
    assert_eq!(CompressionAlgorithm::from_str("bz2").unwrap(), CompressionAlgorithm::Bzip2);
    assert_eq!(CompressionAlgorithm::from_str("zstd").unwrap().name(), "zstd");
    assert!(matches!(
        CompressionAlgorithm::from_str("rar"),
        Err(CompressionError::UnknownAlgorithm(s)) if s == "rar"
    ));
    assert_eq!(CompressionLevel::from_str("best").unwrap(), CompressionLevel::Best);
    assert_eq!(CompressionLevel::from_str("-7").unwrap(), CompressionLevel::Custom(-7));
    assert_eq!(CompressionLevel::from_str("+12").unwrap(), CompressionLevel::Custom(12));
    assert_eq!(CompressionLevel::from_str("127").unwrap(), CompressionLevel::Custom(127));
    assert!(matches!(CompressionLevel::from_str("128"), Err(CompressionError::InvalidLevel(_))));
    assert!(matches!(CompressionLevel::from_str("-"), Err(CompressionError::InvalidLevel(_))));
    assert!(matches!(CompressionLevel::from_str(""), Err(CompressionError::InvalidLevel(_))));
    assert_eq!(CompressionLevel::Best.zstd_level(), 22);
    assert_eq!(CompressionLevel::Default.zstd_level(), 10);
    assert_eq!(CompressionLevel::Custom(-3).zstd_level(), -3);
}

#[test]
fn compressor_and_level_texts() {
    let c = Compressor::from_str("gzip:best").unwrap();
    assert_eq!(c.algorithm(), CompressionAlgorithm::Gzip);
    assert_eq!(c.level, CompressionLevel::Best);
    let c = Compressor::from_str("zstd").unwrap();
    assert_eq!(c.level, CompressionLevel::Default);
    assert!(matches!(Compressor::from_str("rar:best"), Err(CompressionError::UnknownAlgorithm(_))));
    assert!(matches!(Compressor::from_str("lz4:huge"), Err(CompressionError::InvalidLevel(_))));
    assert_eq!(Decompressor::from_str("zlib").unwrap().algorithm(), CompressionAlgorithm::Zlib);
    assert_eq!(CompressionLevel::Custom(-128).to_string(), "-128");
    assert_eq!(CompressionLevel::Custom(7).to_string(), "7");
    assert_eq!(CompressionLevel::Custom(42).to_string(), "42");
    assert_eq!(CompressionLevel::Good.to_string(), "good");
    for l in [CompressionLevel::Custom(-128), CompressionLevel::Custom(0), CompressionLevel::Custom(127), CompressionLevel::Quick] {
        assert_eq!(CompressionLevel::from_str(&l.to_string()).unwrap(), l);
    }
}
