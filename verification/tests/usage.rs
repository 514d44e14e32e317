use mount_usage::dedup::filter_mountinfo_list;
use mount_usage::mountinfo::{get_mountinfo_list, MountInfo};
use mount_usage::options::{contains_name, Options};
use mount_usage::usage::{
    columns, get_all_entries, get_dev, is_hidden, percent, usage_row, Cell, FsStats, Percent,
    UsageRow,
};

fn mount(id: u32, minor: u32, point: &str, fs: &str, source: &str) -> MountInfo {
    MountInfo {
        mount_id: id,
        parent_mount_id: 1,
        major_dev: 8,
        minor_dev: minor,
        root: "/".to_string(),
        mount_point: point.to_string(),
        mount_options: vec!["rw".to_string()],
        optional_fields: None,
        fs_type: fs.to_string(),
        mount_source: source.to_string(),
        super_options: vec!["rw".to_string()],
    }
}

fn stats(total_blocks: u64, free_blocks: u64, block_size: u64) -> FsStats {
    FsStats { total_blocks, free_blocks, block_size, total_inodes: 100, free_inodes: 40 }
}

fn value(p: Percent) -> f64 {
    p.numerator as f64 / p.denominator as f64
}

fn points(rows: &[UsageRow]) -> Vec<String> {
    rows.iter().map(|r| r.mount_point.clone()).collect()
}

#[test]
fn usage_of_a_file_system() {
    let m = mount(1, 1, "/", "ext4", "/dev/sda1");
    let s = FsStats {
        total_blocks: 1000,
        free_blocks: 250,
        block_size: 4096,
        total_inodes: 65536,
        free_inodes: 16384,
    };
    let row = usage_row(&m, &s).unwrap();
    assert_eq!(row.filesystem, "/dev/sda1");
    assert_eq!(row.fs_type, "ext4");
    assert_eq!(row.mount_point, "/");
    assert_eq!(row.total_bytes, 4096000);
    assert_eq!(row.available_bytes, 1024000);
    assert_eq!(row.used_bytes, (1000 - 250) * 4096);
    assert_eq!(row.byte_percent, Percent { numerator: 307200000, denominator: 4096000 });
    assert_eq!(value(row.byte_percent), 75.0);
    assert_eq!(row.total_inodes, 65536);
    assert_eq!(row.free_inodes, 16384);
    assert_eq!(row.used_inodes, 49152);
    assert_eq!(row.inode_percent, Percent { numerator: 4915200, denominator: 65536 });
    assert_eq!(value(row.inode_percent), 75.0);
}

#[test]
fn no_inodes_is_nought_percent() {
    let m = mount(1, 1, "/boot/efi", "vfat", "/dev/sda1");
    let s = FsStats {
        total_blocks: 1000,
        free_blocks: 250,
        block_size: 4096,
        total_inodes: 0,
        free_inodes: 0,
    };
    let row = usage_row(&m, &s).unwrap();
    assert_eq!(row.used_inodes, 0);
    assert_eq!(row.inode_percent, Percent { numerator: 0, denominator: 1 });
    assert_eq!(value(row.inode_percent), 0.0);
}

#[test]
fn no_blocks_is_nought_percent() {
    let m = mount(1, 1, "/proc", "proc", "proc");
    let s = FsStats { total_blocks: 0, free_blocks: 0, block_size: 4096, total_inodes: 0, free_inodes: 0 };
    let row = usage_row(&m, &s).unwrap();
    assert_eq!(row.total_bytes, 0);
    assert_eq!(row.used_bytes, 0);
    assert_eq!(row.available_bytes, 0);
    assert_eq!(row.byte_percent, Percent { numerator: 0, denominator: 1 });
}

#[test]
fn percent_is_an_exact_fraction() {
    assert_eq!(percent(0, 0), Percent { numerator: 0, denominator: 1 });
    assert_eq!(percent(0, 8), Percent { numerator: 0, denominator: 8 });
    assert_eq!(percent(1, 3), Percent { numerator: 100, denominator: 3 });
    assert_eq!(percent(8, 8), Percent { numerator: 800, denominator: 8 });
    assert_eq!(
        percent(u64::MAX, u64::MAX),
        Percent { numerator: 1844674407370955161500, denominator: u64::MAX }
    );
}

#[test]
fn the_largest_file_system_that_fits() {
    let m = mount(1, 1, "/", "ext4", "/dev/sda1");
    let s = FsStats {
        total_blocks: u64::MAX,
        free_blocks: 1,
        block_size: 1,
        total_inodes: u64::MAX,
        free_inodes: 0,
    };
    assert!(s.is_consistent());
    let row = usage_row(&m, &s).unwrap();
    assert_eq!(row.total_bytes, u64::MAX);
    assert_eq!(row.used_bytes, u64::MAX - 1);
    assert_eq!(row.used_inodes, u64::MAX);
}

#[test]
fn inconsistent_statistics_give_no_row() {
    let m = mount(1, 1, "/", "ext4", "/dev/sda1");
    assert_eq!(usage_row(&m, &stats(10, 11, 512)), None);
    assert_eq!(usage_row(&m, &stats(u64::MAX, 0, 2)), None);
    assert!(usage_row(&m, &stats(10, 10, 512)).is_some());
}

#[test]
fn consistency_of_statistics() {
    assert!(stats(1000, 250, 4096).is_consistent());
    assert!(stats(0, 0, 0).is_consistent());
    assert!(stats(10, 10, 512).is_consistent());
    assert!(!stats(10, 11, 512).is_consistent());
    assert!(!stats(u64::MAX, 0, 2).is_consistent());
    assert!(stats(1 << 32, 0, (1 << 32) - 1).is_consistent());
    assert!(!stats(1 << 32, 0, 1 << 32).is_consistent());
    let inodes = FsStats { total_blocks: 1, free_blocks: 1, block_size: 1, total_inodes: 5, free_inodes: 6 };
    assert!(!inodes.is_consistent());
}

#[test]
fn get_dev_decides_what_is_reported() {
    let ext4 = mount(1, 1, "/", "ext4", "/dev/sda1");
    let proc_fs = mount(2, 2, "/proc", "proc", "proc");
    let nfs = mount(3, 3, "/mnt", "nfs", "server:/export");
    let good = stats(1000, 250, 4096);
    let empty = stats(0, 0, 4096);
    let o = Options::new();

    assert_eq!(get_dev(&ext4, &o, Some(good)), Some(good));
    assert_eq!(get_dev(&ext4, &o, None), None);
    assert_eq!(get_dev(&ext4, &o, Some(empty)), None);
    assert_eq!(get_dev(&ext4, &o, Some(stats(10, 11, 512))), None);
    assert_eq!(get_dev(&proc_fs, &o, Some(good)), None);
    assert_eq!(get_dev(&nfs, &o, Some(good)), None);

    let all = Options { show_all_fs: true, ..Options::new() };
    assert_eq!(get_dev(&ext4, &all, Some(empty)), Some(empty));
    assert_eq!(get_dev(&proc_fs, &all, Some(empty)), Some(empty));
    assert_eq!(get_dev(&nfs, &all, Some(good)), None);

    let remote_too = Options { show_local_fs: false, ..Options::new() };
    assert_eq!(get_dev(&nfs, &remote_too, Some(good)), Some(good));

    let listed = Options { listed_fs: vec!["proc".to_string()], ..Options::new() };
    assert_eq!(get_dev(&proc_fs, &listed, Some(empty)), Some(empty));
    assert_eq!(get_dev(&ext4, &listed, Some(good)), None);

    let without = Options { excluded_fs: vec!["ext4".to_string()], ..Options::new() };
    assert_eq!(get_dev(&ext4, &without, Some(good)), None);
}

#[test]
fn hidden_agrees_with_the_rule() {
    let ext4 = mount(1, 1, "/", "ext4", "/dev/sda1");
    let proc_fs = mount(2, 2, "/proc", "proc", "proc");
    assert!(!is_hidden(&ext4, &Options::new()));
    assert!(is_hidden(&proc_fs, &Options::new()));
    let listed = Options { listed_fs: vec!["ext4".to_string()], ..Options::new() };
    assert!(is_hidden(&proc_fs, &listed));
    assert!(!is_hidden(&ext4, &listed));
}

#[test]
fn contains_name_is_membership() {
    let names = vec!["ext4".to_string(), "xfs".to_string(), "ext4".to_string()];
    assert!(contains_name(&names, "ext4"));
    assert!(contains_name(&names, "xfs"));
    assert!(!contains_name(&names, "ext"));
    assert!(!contains_name(&Vec::new(), "ext4"));
}

#[test]
fn a_failed_query_removes_exactly_that_mount() {
    let mounts = vec![
        mount(1, 1, "/", "ext4", "/dev/sda1"),
        mount(2, 2, "/home", "ext4", "/dev/sda2"),
        mount(3, 3, "/var", "xfs", "/dev/sda3"),
    ];
    let o = Options::new();
    let all = vec![Some(stats(1000, 250, 4096)), Some(stats(2000, 500, 4096)), Some(stats(10, 5, 512))];
    let rows = get_all_entries(&mounts, &o, &all);
    assert_eq!(points(&rows), ["/", "/home", "/var"]);

    for failed in 0..3 {
        let mut outcomes = all.clone();
        outcomes[failed] = None;
        let fewer = get_all_entries(&mounts, &o, &outcomes);
        let mut expected = rows.clone();
        expected.remove(failed);
        assert_eq!(fewer, expected);
    }
}

#[test]
fn a_query_that_was_not_made_counts_as_failed() {
    let mounts = vec![
        mount(1, 1, "/", "ext4", "/dev/sda1"),
        mount(2, 2, "/home", "ext4", "/dev/sda2"),
    ];
    let rows = get_all_entries(&mounts, &Options::new(), &vec![Some(stats(1000, 250, 4096))]);
    assert_eq!(points(&rows), ["/"]);
    assert!(get_all_entries(&mounts, &Options::new(), &Vec::new()).is_empty());
}

#[test]
fn one_local_one_pseudo_and_one_remote_mount() {
    let content = "29 1 8:2 / / rw,relatime shared:1 - ext4 /dev/sda2 rw,errors=remount-ro\n\
                   23 29 0:22 / /proc rw,nosuid,nodev,noexec,relatime shared:13 - proc proc rw\n\
                   61 29 0:53 / /mnt/export rw,relatime shared:30 - nfs nfs-server:/export rw,vers=3\n";
    let table = get_mountinfo_list(content);
    assert!(table.errors.is_empty());
    assert_eq!(table.mounts.len(), 3);

    let options = Options::new();
    let mounts = filter_mountinfo_list(table.mounts.clone(), &options);
    assert_eq!(mounts.len(), 1);
    let outcomes: Vec<Option<FsStats>> = mounts
        .iter()
        .map(|m| if is_hidden(m, &options) { None } else { Some(stats(1000, 250, 4096)) })
        .collect();
    let rows = get_all_entries(&mounts, &options, &outcomes);
    assert_eq!(rows.len(), 1);
    assert_eq!(rows[0].fs_type, "ext4");
    assert_eq!(rows[0].filesystem, "/dev/sda2");
    assert_eq!(rows[0].mount_point, "/");
    assert_eq!(rows[0].used_bytes, 750 * 4096);

    let unfiltered = vec![Some(stats(1000, 250, 4096)); 3];
    let rows = get_all_entries(&table.mounts, &options, &unfiltered);
    assert_eq!(points(&rows), ["/"]);

    let remote_too = Options { show_local_fs: false, ..Options::new() };
    let mounts = filter_mountinfo_list(table.mounts.clone(), &remote_too);
    let rows = get_all_entries(&mounts, &remote_too, &vec![Some(stats(1000, 250, 4096)); 2]);
    assert_eq!(points(&rows), ["/", "/mnt/export"]);
}

#[test]
fn the_columns_of_a_row() {
    let m = mount(1, 1, "/", "ext4", "/dev/sda1");
    let s = FsStats {
        total_blocks: 1000,
        free_blocks: 250,
        block_size: 4096,
        total_inodes: 65536,
        free_inodes: 16384,
    };
    let cells = columns(&usage_row(&m, &s).unwrap());
    assert_eq!(
        cells,
        vec![
            ("Filesystem", Cell::Text("/dev/sda1".to_string())),
            ("Type", Cell::Text("ext4".to_string())),
            ("Inodes", Cell::Count(65536)),
            ("IUsed", Cell::Count(49152)),
            ("IFree", Cell::Count(16384)),
            ("IUse%", Cell::Share(Percent { numerator: 4915200, denominator: 65536 })),
            ("Total", Cell::Size(4096000)),
            ("Used", Cell::Size(3072000)),
            ("Avail", Cell::Size(1024000)),
            ("Use%", Cell::Share(Percent { numerator: 307200000, denominator: 4096000 })),
            ("mount-point", Cell::Path("/".to_string())),
        ]
    );
}
