use feattle::last_reload::LastReload;
use feattle::sync::{BackgroundSync, Disk};

#[test]
fn background_sync_test() {
    let mut sync = BackgroundSync::new();
    assert_eq!(sync.next_wait(true), 30_000);
    assert_eq!(sync.next_wait(false), 60_000);
    sync.ok_interval(100);
    assert_eq!(sync.next_wait(true), 100);
    assert_eq!(sync.next_wait(false), 60_000);
    sync.err_interval(200);
    assert_eq!(sync.next_wait(false), 200);
    sync.interval(300);
    assert_eq!(sync.next_wait(true), 300);
    assert_eq!(sync.next_wait(false), 300);
}

#[test]
fn disk_file_names() {
    let disk = Disk::new("some/dir".to_string());
    assert_eq!(disk.dir, "some/dir");
    assert_eq!(disk.current_file(), "current.json");
    assert_eq!(disk.history_file("a"), "history-a.json");
}

#[test]
fn last_reload_accessors() {
    assert_eq!(LastReload::Never.reload_date(), None);
    assert_eq!(LastReload::Never.version(), None);
    let no_data = LastReload::NoData { reload_date: 5 };
    assert_eq!(no_data.reload_date(), Some(5));
    assert_eq!(no_data.version(), Some(0));
    assert_eq!(no_data.version_date(), None);
    let data = LastReload::Data { reload_date: 7, version: 3, version_date: 6 };
    assert_eq!(data.reload_date(), Some(7));
    assert_eq!(data.version(), Some(3));
    assert_eq!(data.version_date(), Some(6));
}
