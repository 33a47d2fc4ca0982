use wineyard::format::ResourceFormat;
use wineyard::hash;
use wineyard::lock_file::LockFile;
use wineyard::manifest::{PackageInfo, PackageManifest, ResourceInfo, RuntimeInfo};
use wineyard::resolver::{PackagesResolver, PackagesResolverError, ResolveState};
use wineyard::store::ResourceStore;
use wineyard::url::normalize_url;

fn manifest(inputs: Vec<(&str, ResourceInfo)>, outputs: Vec<(&str, ResourceInfo)>) -> PackageManifest {
    PackageManifest {
        package: PackageInfo { description: None, authors: vec![] },
        runtime: RuntimeInfo { minimal_version: 0 },
        inputs: inputs.into_iter().map(|(n, r)| (n.to_string(), r)).collect(),
        outputs: outputs.into_iter().map(|(n, r)| (n.to_string(), r)).collect(),
    }
}

fn info(uri: &str, format: ResourceFormat, hash: Option<hash::Hash>) -> ResourceInfo {
    ResourceInfo { uri: uri.to_string(), format, hash }
}

fn refs(lock: &LockFile, id: usize, inputs: bool) -> Vec<(String, u32)> {
    let r = &lock.resources[id];
    let t = if inputs { &r.inputs } else { &r.outputs };
    t.clone().unwrap()
}

#[test]
fn empty_resolve_gives_empty_lock() {
    let resolver = PackagesResolver::new();
    let mut st = ResolveState::new(&resolver);
    assert!(st.is_done());
    assert!(st.take_packages().is_empty());
    let lock = st.finish();
    assert!(lock.lock.root.is_empty());
    assert!(lock.resources.is_empty());
    let store = ResourceStore::new("/store".to_string());
    assert!(store.validate(&lock, &vec![]));
}

#[test]
fn single_file_output() {
    let h = hash::Hash::for_slice(b"data");
    let mut resolver = PackagesResolver::new();
    resolver.add_package("https://example.com/pkg".to_string());
    let mut st = ResolveState::new(&resolver);
    let fetches = st.take_packages();
    assert_eq!(fetches.len(), 1);
    assert_eq!(fetches[0].url, "https://example.com/pkg/package.json");
    assert_eq!(fetches[0].root_url, "https://example.com/pkg/");
    assert!(fetches[0].is_root);
    let m = manifest(vec![], vec![("data", info("data.bin", ResourceFormat::File, Some(h)))]);
    let mh = hash::Hash::for_slice(b"manifest");
    st.add_package(&fetches[0], mh, 8, m);
    let res = st.take_resources();
    assert_eq!(res.len(), 1);
    assert_eq!(res[0].url, "https://example.com/pkg/data.bin");
    assert_eq!(res[0].expected, Some(h));
    st.add_resource(&res[0], h, 4).unwrap();
    assert!(st.take_packages().is_empty());
    assert!(st.is_done());
    let lock = st.finish();
    assert_eq!(lock.resources.len(), 2);
    assert_eq!(lock.lock.root, vec![0]);
    assert_eq!(lock.resources[0].format, ResourceFormat::Package);
    assert_eq!(lock.resources[0].lock.hash, mh);
    assert_eq!(refs(&lock, 0, false), vec![("data".to_string(), 1)]);
    assert_eq!(refs(&lock, 0, true), vec![]);
    assert_eq!(lock.resources[1].lock.hash, h);
    assert_eq!(lock.resources[1].lock.size, 4);
    assert!(lock.resources[1].inputs.is_none() && lock.resources[1].outputs.is_none());
    let store = ResourceStore::new("/store".to_string());
    assert!(store.validate(&lock, &vec![Some(mh), Some(h)]));
    assert!(!store.validate(&lock, &vec![Some(mh), None]));
    assert!(!store.validate(&lock, &vec![Some(mh), Some(hash::Hash(0))]));
    assert_eq!(store.get_path(&h), format!("/store/{}", h.to_base32()));
}

#[test]
fn hash_mismatch_is_reported() {
    let h = hash::Hash::for_slice(b"data");
    let mut resolver = PackagesResolver::new();
    resolver.add_package("https://example.com/pkg".to_string());
    let mut st = ResolveState::new(&resolver);
    let fetches = st.take_packages();
    let m = manifest(vec![], vec![("data", info("data.bin", ResourceFormat::File, Some(hash::Hash(0))))]);
    st.add_package(&fetches[0], hash::Hash::for_slice(b"m"), 1, m);
    let res = st.take_resources();
    match st.add_resource(&res[0], h, 4) {
        Err(PackagesResolverError::HashMismatch { current, expected }) => {
            assert_eq!(current, h.to_base32());
            assert_eq!(expected, "0000000000000");
        }
        other => panic!("unexpected: {other:?}"),
    }
}

#[test]
fn archive_output_keeps_its_format() {
    let d = hash::Hash(0xd1);
    let mut resolver = PackagesResolver::new();
    resolver.add_package("https://example.com/pkg/package.json".to_string());
    let mut st = ResolveState::new(&resolver);
    let fetches = st.take_packages();
    assert_eq!(fetches[0].url, "https://example.com/pkg/package.json");
    let fmt = ResourceFormat::from_str("archive/tar").unwrap();
    let m = manifest(vec![], vec![("files", info("pkg.tar.gz", fmt, Some(d)))]);
    st.add_package(&fetches[0], hash::Hash(1), 1, m);
    let res = st.take_resources();
    assert_eq!(res[0].format, fmt);
    st.add_resource(&res[0], d, 4096).unwrap();
    let lock = st.finish();
    assert_eq!(lock.resources[1].format, fmt);
    assert_eq!(lock.resources[1].lock.hash, d);
}

#[test]
fn two_roots_share_one_dependency() {
    let x = hash::Hash::for_slice(b"x");
    let resolver = PackagesResolver::with_packages(vec![
        "https://example.com/r1".to_string(),
        "https://example.com/r2".to_string(),
    ]);
    let mut st = ResolveState::new(&resolver);
    let fetches = st.take_packages();
    assert_eq!(fetches.len(), 2);
    for (k, f) in fetches.iter().enumerate() {
        let m = manifest(vec![("x", info("https://example.com/x.bin", ResourceFormat::File, None))], vec![]);
        st.add_package(f, hash::Hash(k as u64 + 10), 1, m);
    }
    let res = st.take_resources();
    assert_eq!(res.len(), 1);
    st.add_resource(&res[0], x, 1).unwrap();
    assert!(st.take_packages().is_empty());
    let lock = st.finish();
    assert_eq!(lock.resources.len(), 3);
    let mut roots = lock.lock.root.clone();
    roots.sort();
    assert_eq!(roots, vec![0, 1]);
    assert_eq!(refs(&lock, 0, true), refs(&lock, 1, true));
    assert_eq!(refs(&lock, 0, true), vec![("x".to_string(), 2)]);
    for (i, a) in lock.resources.iter().enumerate() {
        assert_eq!(normalize_url(&a.url), a.url);
        for b in &lock.resources[i + 1..] {
            assert!(a.url != b.url || a.format != b.format);
        }
    }
}

#[test]
fn circular_packages_resolve_to_two_packages() {
    let mut resolver = PackagesResolver::new();
    resolver.add_package("https://example.com/a".to_string());
    let mut st = ResolveState::new(&resolver);
    let fa = st.take_packages();
    assert_eq!(fa.len(), 1);
    st.add_package(&fa[0], hash::Hash(1), 1, manifest(vec![("b", info("../b", ResourceFormat::Package, None))], vec![]));
    assert!(st.take_resources().is_empty());
    let fb = st.take_packages();
    assert_eq!(fb.len(), 1);
    assert_eq!(fb[0].url, "https://example.com/b/package.json");
    assert!(!fb[0].is_root);
    st.add_package(&fb[0], hash::Hash(2), 1, manifest(vec![("a", info("../a", ResourceFormat::Package, None))], vec![]));
    assert!(st.take_resources().is_empty());
    assert!(st.take_packages().is_empty());
    assert!(st.is_done());
    let lock = st.finish();
    assert_eq!(lock.resources.len(), 2);
    assert_eq!(refs(&lock, 0, true), vec![("b".to_string(), 1)]);
    assert_eq!(refs(&lock, 1, true), vec![("a".to_string(), 0)]);
}

#[test]
fn resolver_roots_are_a_set() {
    let mut r = PackagesResolver::new();
    r.add_package("a".to_string());
    r.add_package("a".to_string());
    r.add_package("b".to_string());
    assert_eq!(r.root_packages().len(), 2);
    let r2 = PackagesResolver::with_packages(vec!["x".to_string(), "x".to_string()]);
    assert_eq!(r2.root_packages(), &vec!["x".to_string()]);
}
