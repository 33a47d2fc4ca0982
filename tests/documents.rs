use wineyard::document::Value;
use wineyard::format::{ResourceArchiveFormat, ResourceFormat, ResourceModuleFormat};
use wineyard::hash;
use wineyard::lock_file::{LockFile, LockFileError, LockFileInfo, ResourceLock, ResourceLockData};
use wineyard::manifest::{PackageInfo, PackageManifest, ResourceInfo, RuntimeInfo};

fn entry(k: &str, v: Value) -> (String, Value) {
    (k.to_string(), v)
}

fn sample_lock() -> LockFile {
    LockFile {
        lock: LockFileInfo { root: vec![0] },
        resources: vec![
            ResourceLock {
                url: "https://example.com/p/package.json".to_string(),
                format: ResourceFormat::Package,
                lock: ResourceLockData { hash: hash::Hash(42), size: 120 },
                inputs: Some(vec![("lib".to_string(), 1)]),
                outputs: Some(vec![("main".to_string(), 2)]),
            },
            ResourceLock {
                url: "https://example.com/p/lib.tar.gz".to_string(),
                format: ResourceFormat::Archive(ResourceArchiveFormat::Tar),
                lock: ResourceLockData { hash: hash::Hash(u64::MAX), size: u64::MAX },
                inputs: None,
                outputs: None,
            },
            ResourceLock {
                url: "https://example.com/p/main.luau".to_string(),
                format: ResourceFormat::Module(ResourceModuleFormat::Luau),
                lock: ResourceLockData { hash: hash::Hash(7), size: 3 },
                inputs: None,
                outputs: None,
            },
        ],
    }
}

fn same_lock(a: &LockFile, b: &LockFile) {
    assert_eq!(a.lock.root, b.lock.root);
    assert_eq!(a.resources.len(), b.resources.len());
    for (x, y) in a.resources.iter().zip(b.resources.iter()) {
        assert_eq!(x.url, y.url);
        assert_eq!(x.format, y.format);
        assert_eq!(x.lock, y.lock);
        assert_eq!(x.inputs, y.inputs);
        assert_eq!(x.outputs, y.outputs);
    }
}

#[test]
fn lock_file_round_trip() {
    let lock = sample_lock();
    let doc = lock.to_table();
    let back = LockFile::from_table(&doc).unwrap();
    same_lock(&lock, &back);
}

#[test]
fn lock_file_rejects_other_versions_and_bad_fields() {
    let doc = vec![entry("lock", Value::Table(vec![entry("format", Value::Integer(2)), entry("root", Value::Array(vec![]))]))];
    assert!(matches!(LockFile::from_table(&doc), Err(LockFileError::InvalidFormatVersion(2))));
    let doc = vec![entry("lock", Value::Table(vec![entry("format", Value::Integer(65537)), entry("root", Value::Array(vec![]))]))];
    assert!(matches!(LockFile::from_table(&doc), Err(LockFileError::InvalidFormatVersion(_))));
    let doc = vec![entry("package", Value::Table(vec![entry("format", Value::Integer(65537))]))];
    assert!(matches!(
        PackageManifest::from_table(&doc),
        Err(wineyard::format::PackageManifestError::PackageUnknownFormatVersion(_))
    ));
    let doc = vec![entry("lock", Value::Integer(1))];
    assert!(matches!(
        LockFile::from_table(&doc),
        Err(LockFileError::InvalidFieldValue { field: "lock", expected: "table" })
    ));
    let doc = vec![entry("lock", Value::Table(vec![entry("format", Value::Integer(1)), entry("root", Value::Array(vec![Value::String("x".into())]))]))];
    assert!(matches!(
        LockFile::from_table(&doc),
        Err(LockFileError::InvalidFieldValue { field: "lock.root", .. })
    ));
    let doc = vec![entry("lock", Value::Table(vec![entry("format", Value::Integer(1)), entry("root", Value::Array(vec![]))]))];
    assert!(matches!(
        LockFile::from_table(&doc),
        Err(LockFileError::InvalidFieldValue { field: "resources", .. })
    ));
    let doc = vec![
        entry("lock", Value::Table(vec![entry("format", Value::Integer(1)), entry("root", Value::Array(vec![]))])),
        entry("resources", Value::Array(vec![Value::Table(vec![
            entry("url", Value::String("u".into())),
            entry("format", Value::String("blob".into())),
        ])])),
    ];
    assert!(matches!(LockFile::from_table(&doc), Err(LockFileError::PackageManifestError(_))));
}

fn sample_manifest(minimal_version: u32) -> PackageManifest {
    PackageManifest {
        package: PackageInfo { description: Some("demo".to_string()), authors: vec!["a".to_string(), "b".to_string()] },
        runtime: RuntimeInfo { minimal_version },
        inputs: vec![(
            "q".to_string(),
            ResourceInfo { uri: "../q".to_string(), format: ResourceFormat::Package, hash: None },
        )],
        outputs: vec![(
            "m".to_string(),
            ResourceInfo {
                uri: "main.luau".to_string(),
                format: ResourceFormat::Module(ResourceModuleFormat::Luau),
                hash: Some(hash::Hash(99)),
            },
        )],
    }
}

fn same_manifest(a: &PackageManifest, b: &PackageManifest) {
    assert_eq!(a.package.description, b.package.description);
    assert_eq!(a.package.authors, b.package.authors);
    assert_eq!(a.runtime, b.runtime);
    for (x, y) in [(&a.inputs, &b.inputs), (&a.outputs, &b.outputs)] {
        assert_eq!(x.len(), y.len());
        for (p, q) in x.iter().zip(y.iter()) {
            assert_eq!(p.0, q.0);
            assert_eq!(p.1.uri, q.1.uri);
            assert_eq!(p.1.format, q.1.format);
            assert_eq!(p.1.hash, q.1.hash);
        }
    }
}

#[test]
fn manifest_round_trip() {
    for v in [0, 1, 2, 7] {
        let m = sample_manifest(v);
        let back = PackageManifest::from_table(&m.to_table()).unwrap();
        same_manifest(&m, &back);
    }
    let back = PackageManifest::from_table(&sample_manifest(1).to_table()).unwrap();
    assert_eq!(back.runtime.minimal_version, 1);
}

#[test]
fn manifest_reads_plain_uris_and_integer_hashes() {
    let doc = vec![
        entry("package", Value::Table(vec![entry("format", Value::Integer(1))])),
        entry("inputs", Value::Table(vec![
            entry("data", Value::String("files/data.zip".into())),
            entry("plain", Value::String("tool.lua".into())),
            entry("tool", Value::Table(vec![entry("uri", Value::String("bin/tool.lua".into())), entry("hash", Value::Integer(5))])),
        ])),
    ];
    let m = PackageManifest::from_table(&doc).unwrap();
    assert_eq!(m.inputs[0].1.format, ResourceFormat::Archive(ResourceArchiveFormat::Zip));
    // A URI without a separator is its own file name.
    assert_eq!(m.inputs[1].1.format, ResourceFormat::Module(ResourceModuleFormat::Luau));
    assert_eq!(m.inputs[2].1.format, ResourceFormat::Module(ResourceModuleFormat::Luau));
    assert_eq!(m.inputs[2].1.hash, Some(hash::Hash(5)));
    assert!(m.outputs.is_empty());
    assert!(m.package.is_empty());
    assert!(m.runtime.is_empty());
}
