use dirscan::volume::{get_disk_info, is_root_directory, DiskRecord};

fn disk(mount: &str, total: u64, available: u64) -> DiskRecord {
    DiskRecord { mount_point: mount.to_string(), total_space: total, available_space: available }
}

#[test]
fn filesystem_root_is_a_volume_root() {
    assert!(is_root_directory("/"));
    assert!(is_root_directory("\\"));
}

#[test]
fn volumes_mount_points() {
    assert!(is_root_directory("/Volumes/YuYu1015"));
    assert!(!is_root_directory("/Volumes/"));
    assert!(!is_root_directory("/Volumes/a/b"));
    assert!(!is_root_directory("/Volumes"));
}

#[test]
fn mnt_mount_points() {
    assert!(is_root_directory("/mnt/disk"));
    assert!(!is_root_directory("/mnt/"));
    assert!(!is_root_directory("/mnt/a/b"));
}

#[test]
fn media_mount_points() {
    assert!(is_root_directory("/media/user/disk"));
    assert!(!is_root_directory("/media/user"));
    assert!(!is_root_directory("/media/user/"));
    assert!(!is_root_directory("/media//disk"));
    assert!(!is_root_directory("/media/a/b/c"));
}

#[test]
fn ordinary_paths_are_not_volume_roots() {
    assert!(!is_root_directory(""));
    assert!(!is_root_directory("/home/me"));
    assert!(!is_root_directory("relative/path"));
}

#[test]
fn disk_info_picks_longest_mount_prefix() {
    let disks = vec![
        disk("/", 500_000_000_000, 100_000_000_000),
        disk("/Volumes/X", 100_000_000_000, 40_000_000_000),
    ];
    let info = get_disk_info("/Volumes/X", &disks).unwrap();
    assert_eq!(info.total_space, 100_000_000_000);
    assert_eq!(info.available_space, 40_000_000_000);
    assert_eq!(info.used_space, 60_000_000_000);
}

#[test]
fn disk_info_falls_back_to_shorter_prefix() {
    let disks = vec![
        disk("/", 500_000_000_000, 100_000_000_000),
        disk("/Volumes/X", 100_000_000_000, 40_000_000_000),
    ];
    let info = get_disk_info("/home/me", &disks).unwrap();
    assert_eq!(info.total_space, 500_000_000_000);
    assert_eq!(info.used_space, 400_000_000_000);
}

#[test]
fn disk_info_none_when_nothing_matches() {
    let disks = vec![disk("/Volumes/X", 10, 5)];
    assert!(get_disk_info("/mnt/other", &disks).is_none());
    assert!(get_disk_info("/", &vec![]).is_none());
}

#[test]
fn disk_info_first_of_equally_long_matches_wins() {
    let disks = vec![disk("/a", 100, 50), disk("/a", 200, 80)];
    let info = get_disk_info("/a/path", &disks).unwrap();
    assert_eq!(info.total_space, 100);
    assert_eq!(info.used_space, 50);
}
