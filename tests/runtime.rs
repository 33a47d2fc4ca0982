use wineyard::context::{is_under, persist_dir_name, Context};
use wineyard::engine::{evaluation_order, find_resource, load_order, root_modules};
use wineyard::format::{ResourceFormat, ResourceModuleFormat};
use wineyard::hash;
use wineyard::lock_file::{LockFile, LockFileInfo, ResourceLock, ResourceLockData};
use wineyard::sync::{ChannelHub, MutexHub, SyncError};

fn res(format: ResourceFormat, h: u64, inputs: Option<Vec<(&str, u32)>>, outputs: Option<Vec<(&str, u32)>>) -> ResourceLock {
    let conv = |v: Option<Vec<(&str, u32)>>| v.map(|v| v.into_iter().map(|(n, i)| (n.to_string(), i)).collect());
    ResourceLock {
        url: format!("https://example.com/{h}"),
        format,
        lock: ResourceLockData { hash: hash::Hash(h), size: 1 },
        inputs: conv(inputs),
        outputs: conv(outputs),
    }
}

/// P exports module M and imports package Q, which exports module N.
fn sample_lock() -> LockFile {
    let module = ResourceFormat::Module(ResourceModuleFormat::Luau);
    LockFile {
        lock: LockFileInfo { root: vec![0] },
        resources: vec![
            res(ResourceFormat::Package, 100, Some(vec![("q", 2)]), Some(vec![("m", 1)])),
            res(module, 101, None, None),
            res(ResourceFormat::Package, 102, Some(vec![]), Some(vec![("n", 3)])),
            res(module, 103, None, None),
        ],
    }
}

#[test]
fn load_order_runs_dependencies_first() {
    let lock = sample_lock();
    let steps = load_order(&lock);
    let ids: Vec<u32> = steps.iter().map(|s| s.id).collect();
    assert_eq!(ids, vec![0, 2, 3, 1]);
    assert_eq!(steps[2].parent, Some(2));
    assert_eq!(steps[3].parent, Some(0));
    assert_eq!(steps[1].parent, None);
    assert_eq!(evaluation_order(&lock, &steps), vec![3, 1]);
    assert_eq!(root_modules(&lock), vec![1]);
}

#[test]
fn load_order_visits_cycles_once() {
    let lock = LockFile {
        lock: LockFileInfo { root: vec![0] },
        resources: vec![
            res(ResourceFormat::Package, 1, Some(vec![("b", 1)]), Some(vec![])),
            res(ResourceFormat::Package, 2, Some(vec![("a", 0)]), Some(vec![])),
        ],
    };
    let ids: Vec<u32> = load_order(&lock).iter().map(|s| s.id).collect();
    assert_eq!(ids, vec![0, 1]);
}

#[test]
fn find_resource_by_index_hash_or_part() {
    let lock = sample_lock();
    assert_eq!(find_resource(&lock, "2"), Some(2));
    let text = hash::Hash(103).to_base32();
    assert_eq!(find_resource(&lock, &text), Some(3));
    assert_eq!(find_resource(&lock, "101"), Some(1));
    assert_eq!(find_resource(&lock, "zzzz"), None);
}

#[test]
fn context_accessibility_is_by_component() {
    let ctx = Context {
        resource_hash: hash::Hash(1),
        temp_folder: "/tmp/w".to_string(),
        module_folder: "/mods/abc".to_string(),
        persistent_folder: "/persist".to_string(),
        input_resources: vec!["/store/xyz".to_string()],
        ext_process_api: false,
        ext_allowed_paths: vec![],
    };
    assert!(ctx.is_accessible("/tmp/w/file"));
    assert!(ctx.is_accessible("/store/xyz"));
    assert!(ctx.is_accessible("/mods/abc/./x"));
    assert!(!ctx.is_accessible("/tmp/wx"));
    assert!(!ctx.is_accessible("/etc/passwd"));
    assert!(!ctx.is_accessible("tmp/w/file"));
    assert!(is_under("/a//b/", "/a"));
}

#[test]
fn persist_names_are_safe() {
    let h = hash::Hash::for_slice(b"my game!").to_base32();
    assert_eq!(persist_dir_name("my game!"), format!("{h}-my_game"));
    let h2 = hash::Hash::for_slice(b"!!!").to_base32();
    assert_eq!(persist_dir_name("!!!"), h2);
    let h3 = hash::Hash::for_slice(b"a  b").to_base32();
    assert_eq!(persist_dir_name("a  b"), format!("{h3}-a_b"));
}

#[test]
fn channel_messages_reach_every_other_handle_in_order() {
    let k = hash::Hash::for_slice(b"k");
    let other = hash::Hash::for_slice(b"other");
    let mut hub: ChannelHub<String> = ChannelHub::new();
    assert!(hub.open(k, 1));
    assert!(hub.open(k, 2));
    assert!(hub.open(k, 3));
    assert!(hub.open(other, 4));
    assert!(!hub.open(k, 1));
    let m1 = hub.send(1, "one".to_string()).unwrap();
    let m2 = hub.send(1, "two".to_string()).unwrap();
    for h in [2, 3] {
        let a = hub.recv(h).unwrap().unwrap();
        let b = hub.recv(h).unwrap().unwrap();
        assert_eq!((hub.message(a).as_str(), hub.message(b).as_str()), ("one", "two"));
        assert_eq!((a, b), (m1, m2));
        assert_eq!(hub.recv(h).unwrap(), None);
    }
    assert_eq!(hub.recv(1).unwrap(), None);
    assert_eq!(hub.recv(4).unwrap(), None);
    hub.close(2);
    assert_eq!(hub.recv(2), Err(SyncError::InvalidHandle));
    assert_eq!(hub.send(9, "x".to_string()), Err(SyncError::InvalidHandle));
}

#[test]
fn message_without_listeners_is_lost() {
    let k = hash::Hash(5);
    let mut hub: ChannelHub<u8> = ChannelHub::new();
    assert!(hub.open(k, 1));
    hub.send(1, 7).unwrap();
    assert!(hub.open(k, 2));
    assert_eq!(hub.recv(2).unwrap(), None);
}

#[test]
fn mutex_is_keyed_and_reentrant() {
    let k = hash::Hash(9);
    let mut hub = MutexHub::new();
    assert!(hub.open(k, 1));
    assert!(hub.open(k, 2));
    assert_eq!(hub.try_lock(1), Ok(true));
    assert_eq!(hub.try_lock(1), Ok(true));
    assert_eq!(hub.try_lock(2), Ok(false));
    assert_eq!(hub.unlock(2), Err(SyncError::LockedByAnother));
    assert_eq!(hub.unlock(1), Ok(()));
    assert_eq!(hub.try_lock(2), Ok(true));
    hub.close(2);
    assert_eq!(hub.try_lock(1), Ok(true));
    assert_eq!(hub.try_lock(7), Err(SyncError::InvalidHandle));
}

#[test]
fn module_context_reaches_own_file_and_readable_inputs() {
    let store = wineyard::store::ResourceStore::new("/store".to_string());
    let module = ResourceFormat::Module(ResourceModuleFormat::Luau);
    let lock = LockFile {
        lock: LockFileInfo { root: vec![0] },
        resources: vec![
            res(ResourceFormat::Package, 200, Some(vec![("data", 2), ("lib", 3)]), Some(vec![("m", 1)])),
            res(module, 201, None, None),
            res(ResourceFormat::File, 202, None, None),
            res(ResourceFormat::Package, 203, Some(vec![]), Some(vec![])),
        ],
    };
    let ctx = wineyard::context::module_context(
        &store, &lock, 1, Some(0), &"/tmp".to_string(), &"/persist".to_string(), &"/mods".to_string(),
    );
    assert_eq!(
        ctx.input_resources,
        vec![format!("/store/{}", hash::Hash(201).to_base32()), format!("/store/{}", hash::Hash(202).to_base32())]
    );
    assert_eq!(ctx.module_folder, format!("/mods/{}", hash::Hash(201).to_base32()));
    assert!(ctx.is_accessible(&format!("/store/{}/x", hash::Hash(202).to_base32())));
    assert!(!ctx.is_accessible(&format!("/store/{}", hash::Hash(203).to_base32())));
    let root_ctx = wineyard::context::module_context(
        &store, &lock, 1, None, &"/tmp".to_string(), &"/persist".to_string(), &"/mods".to_string(),
    );
    assert_eq!(root_ctx.input_resources.len(), 1);
}
