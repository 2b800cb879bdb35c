use taurigo::state::{AppConfig, SidecarHandle};
use std::path::PathBuf;

#[test]
fn sidecar_handle_starts_empty() {
    let handle: SidecarHandle<u32> = SidecarHandle::new();
    assert!(handle.base_url.is_none());
    assert!(handle.child.is_none());
}

#[test]
fn sidecar_handle_records_and_clears_a_run() {
    let mut handle: SidecarHandle<u32> = SidecarHandle::new();
    handle.set_child(7);
    handle.set_base_url("http://127.0.0.1:80".to_string());
    assert_eq!(handle.child, Some(7));
    assert_eq!(handle.base_url.as_deref(), Some("http://127.0.0.1:80"));
    handle.clear();
    assert!(handle.base_url.is_none());
    assert!(handle.child.is_none());
}

#[test]
fn sidecar_handle_hands_out_its_child_once() {
    let mut handle: SidecarHandle<u32> = SidecarHandle::new();
    handle.set_child(3);
    handle.set_base_url("u".to_string());
    assert_eq!(handle.take_child(), Some(3));
    assert_eq!(handle.take_child(), None);
    assert_eq!(handle.base_url.as_deref(), Some("u"));
}

#[test]
fn app_config_holds_its_paths() {
    let config = AppConfig { data_dir: PathBuf::from("/d"), db_path: PathBuf::from("/d/x.sqlite3") };
    let copy = config.clone();
    assert_eq!(copy.db_path, PathBuf::from("/d/x.sqlite3"));
    assert_eq!(copy.data_dir, PathBuf::from("/d"));
}
