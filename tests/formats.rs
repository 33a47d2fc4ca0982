use wineyard::archive::{Archive, ArchiveFormat};
use wineyard::buffer::Buffer;
use wineyard::downloader::{range_outcome, DownloadOptions, RangeOutcome};
use wineyard::encoding::StringEncoding;
use wineyard::format::{PackageManifestError, ResourceArchiveFormat, ResourceFormat, ResourceModuleFormat};
use wineyard::hash_algorithm::HashAlgorithm;
use wineyard::url::normalize_url;

#[test]
fn url_normalization() {
    assert_eq!(normalize_url("https://a.com/x/./y//z"), "https://a.com/x/y/z");
    assert_eq!(normalize_url("https://a.com/x/../y"), "https://a.com/y");
    assert_eq!(normalize_url("https://a.com\\x\\y"), "https://a.com/x/y");
    assert_eq!(normalize_url("a/b/../.."), "a/..");
    assert_eq!(normalize_url("/root/./pkg/"), "/root/pkg/");
    for u in ["https://a.com/x/../../y/./", "a/b/../..", "x:://y//./z", "", "/", "..//.."] {
        let once = normalize_url(u);
        assert_eq!(normalize_url(&once), once, "{u}");
    }
}

#[test]
fn formats_from_uri_and_text() {
    assert_eq!(ResourceFormat::from_uri("https://x/a.tar.gz"), ResourceFormat::Archive(ResourceArchiveFormat::Tar));
    assert_eq!(ResourceFormat::from_uri("https://x/a.zip"), ResourceFormat::Archive(ResourceArchiveFormat::Zip));
    assert_eq!(ResourceFormat::from_uri("x\\a.zip.001"), ResourceFormat::Archive(ResourceArchiveFormat::Sevenz));
    assert_eq!(ResourceFormat::from_uri("dir/init.lua"), ResourceFormat::Module(ResourceModuleFormat::Luau));
    assert_eq!(ResourceFormat::from_uri("dir/data.bin"), ResourceFormat::File);
    assert_eq!(ResourceFormat::from_uri("a.zip"), ResourceFormat::Archive(ResourceArchiveFormat::Zip));
    assert_eq!(ResourceFormat::from_uri("init.lua"), ResourceFormat::Module(ResourceModuleFormat::Luau));
    assert_eq!(ResourceFormat::from_uri("readme"), ResourceFormat::File);
    assert_eq!(ResourceFormat::from_uri(""), ResourceFormat::File);
    for f in [
        ResourceFormat::File,
        ResourceFormat::Package,
        ResourceFormat::Module(ResourceModuleFormat::Auto),
        ResourceFormat::Module(ResourceModuleFormat::Luau),
        ResourceFormat::Archive(ResourceArchiveFormat::Auto),
        ResourceFormat::Archive(ResourceArchiveFormat::Sevenz),
    ] {
        assert_eq!(ResourceFormat::from_str(&f.to_string()).unwrap(), f);
    }
    assert_eq!(ResourceFormat::Archive(ResourceArchiveFormat::Sevenz).to_string(), "archive/7z");
    assert_eq!(ResourceFormat::from_str("module").unwrap(), ResourceFormat::Module(ResourceModuleFormat::Auto));
    assert_eq!(ResourceFormat::from_str("module/lua").unwrap(), ResourceFormat::Module(ResourceModuleFormat::Luau));
    assert_eq!(ResourceFormat::from_str("file/whatever").unwrap(), ResourceFormat::File);
    assert!(matches!(ResourceFormat::from_str("blob"), Err(PackageManifestError::ResourceUnknownFormat(s)) if s == "blob"));
    assert!(matches!(ResourceFormat::from_str("module/py"), Err(PackageManifestError::ResourceUnknownModuleFormat(s)) if s == "py"));
    assert!(matches!(ResourceFormat::from_str("archive/rar"), Err(PackageManifestError::ResourceUnknownArchiveFormat(s)) if s == "rar"));
}

#[test]
fn archive_formats() {
    assert_eq!(ArchiveFormat::from_path("a.tgz"), Some(ArchiveFormat::Tar));
    assert_eq!(ArchiveFormat::from_path("a.7z.001"), Some(ArchiveFormat::Sevenz));
    assert_eq!(ArchiveFormat::from_path("a.rar"), None);
    assert_eq!(ArchiveFormat::Sevenz.name(), "7z");
    assert_eq!(ArchiveFormat::from_str("sevenz"), Ok(ArchiveFormat::Sevenz));
    assert_eq!(ArchiveFormat::from_str("rar"), Err("rar".to_string()));
    assert_eq!(Archive::open("x.zip".to_string()), Some(Archive::Zip("x.zip".to_string())));
    assert_eq!(Archive::open("x.txt".to_string()), None);
}

#[test]
fn download_range_decisions() {
    assert_eq!(range_outcome(10312443, 416, None, None), RangeOutcome::Complete { total: 10312443 });
    assert_eq!(range_outcome(50, 206, None, Some("bytes */50")), RangeOutcome::Complete { total: 50 });
    assert_eq!(range_outcome(50, 206, Some("25"), Some("bytes 50-74/75")), RangeOutcome::Stream { total: Some(75) });
    assert_eq!(range_outcome(50, 206, Some("25"), None), RangeOutcome::Stream { total: Some(75) });
    assert_eq!(range_outcome(0, 200, Some("abc"), None), RangeOutcome::Stream { total: None });
    assert_eq!(range_outcome(u64::MAX, 200, Some("1"), None), RangeOutcome::Stream { total: None });
    assert!(DownloadOptions::default().continue_download);
}

#[test]
fn hash_algorithm_names() {
    assert_eq!(HashAlgorithm::from_str("SHA2"), Ok(HashAlgorithm::Sha2_256));
    assert_eq!(HashAlgorithm::from_str("siphash"), Ok(HashAlgorithm::Siphash_2_4_64));
    assert_eq!(HashAlgorithm::Sha2_512_224.name(), "sha2-512/224");
    assert_eq!(HashAlgorithm::from_str("Keccak256Full"), Ok(HashAlgorithm::Keccak_256_Full));
    assert_eq!(HashAlgorithm::from_str("whirlpool"), Err("whirlpool".to_string()));
    for a in [HashAlgorithm::Seahash, HashAlgorithm::Blake3, HashAlgorithm::Xxh3_128, HashAlgorithm::CShake_256] {
        assert_eq!(HashAlgorithm::from_str(a.name()), Ok(a));
    }
}

#[test]
fn byte_encodings_round_trip() {
    let data: Vec<u8> = (0u8..=255).collect();
    for name in [
        "hex", "base16", "base32", "base32/nopad", "base32/hex-pad", "base32/hex-nopad",
        "base64", "base64/nopad", "base64/urlsafe-pad", "base64/urlsafe-nopad",
    ] {
        let e = StringEncoding::from_name(name).unwrap();
        for bytes in [&data[..], &b""[..], &b"f"[..], &b"fo"[..]] {
            let text = e.encode_bytes(bytes).unwrap();
            assert_eq!(e.decode_bytes(&text).unwrap(), bytes, "{name}");
        }
    }
    let hex = StringEncoding::from_name("hex").unwrap();
    assert_eq!(hex.encode_bytes(b"\x01\xab").unwrap(), "01ab");
    assert_eq!(hex.decode_bytes("01AB").unwrap(), vec![1, 0xab]);
    assert_eq!(hex.decode_bytes("abc"), None);
    assert_eq!(hex.decode_bytes("zz"), None);
    assert_eq!(StringEncoding::from_name("base64").unwrap().encode_bytes(b"hi").unwrap(), "aGk=");
    assert_eq!(StringEncoding::from_name("base32").unwrap().encode_bytes(b"hi").unwrap(), "nbuq====");
    assert_eq!(StringEncoding::from_name("json").unwrap().encode_bytes(b"x"), None);
    assert_eq!(StringEncoding::from_name("rot13"), None);
}

#[test]
fn buffer_is_a_queue() {
    let mut b = Buffer::new();
    assert!(b.is_empty());
    assert_eq!(b.write(b"hello"), 5);
    assert_eq!(b.read(2), b"he".to_vec());
    assert_eq!(b.as_ref(), b"llo");
    assert_eq!(b.read(10), b"llo".to_vec());
    assert!(b.is_empty());
}
