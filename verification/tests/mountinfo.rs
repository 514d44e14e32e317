use mount_usage::format::format_mountinfo;
use mount_usage::mountinfo::{
    get_mountinfo_list, is_one_of, parse_mountinfo, parse_options, LineError, MountInfo,
    ParseError,
};

fn strings(items: &[&str]) -> Vec<String> {
    items.iter().map(|s| s.to_string()).collect()
}

fn sample() -> MountInfo {
    MountInfo {
        mount_id: 36,
        parent_mount_id: 35,
        major_dev: 98,
        minor_dev: 0,
        root: "/mnt1".to_string(),
        mount_point: "/mnt2".to_string(),
        mount_options: strings(&["rw", "noatime"]),
        optional_fields: Some(strings(&["master:1", "propagate_from:2"])),
        fs_type: "ext3".to_string(),
        mount_source: "/dev/root".to_string(),
        super_options: strings(&["rw", "errors=continue"]),
    }
}

fn with_fs(fs_type: &str, mount_source: &str) -> MountInfo {
    let mut m = sample();
    m.fs_type = fs_type.to_string();
    m.mount_source = mount_source.to_string();
    m
}

#[test]
fn test_parse_mountinfo() {
    let line = "26 29 0:5 / /dev rw,nosuid,relatime shared:2 - devtmpfs dev rw,size=7631200k,nr_inodes=1907800,mode=755,inode64";
    let mntinfo = parse_mountinfo(line).unwrap();
    assert_eq!(mntinfo.mount_id, 26);
    assert_eq!(mntinfo.parent_mount_id, 29);
    assert_eq!(mntinfo.major_dev, 0);
    assert_eq!(mntinfo.minor_dev, 5);
    assert_eq!(mntinfo.root, "/");
    assert_eq!(mntinfo.mount_point, "/dev");
    assert_eq!(mntinfo.mount_options, ["rw", "nosuid", "relatime"]);
    assert_eq!(mntinfo.optional_fields, Some(vec!["shared:2".to_string()]));
    assert_eq!(mntinfo.fs_type, "devtmpfs");
    assert_eq!(mntinfo.mount_source, "dev");
    assert_eq!(
        mntinfo.super_options,
        [
            "rw",
            "size=7631200k",
            "nr_inodes=1907800",
            "mode=755",
            "inode64"
        ]
    );
    println!("{:?}", mntinfo);
}

#[test]
fn test_no_optional_fields() {
    let line = "26 29 0:5 / /dev rw,nosuid,relatime - devtmpfs dev rw,size=7631200k,nr_inodes=1907800,mode=755,inode64";
    let mntinfo = parse_mountinfo(line).unwrap();
    assert_eq!(mntinfo.mount_id, 26);
    assert_eq!(mntinfo.parent_mount_id, 29);
    assert_eq!(mntinfo.major_dev, 0);
    assert_eq!(mntinfo.minor_dev, 5);
    assert_eq!(mntinfo.root, "/");
    assert_eq!(mntinfo.mount_point, "/dev");
    assert_eq!(mntinfo.mount_options, ["rw", "nosuid", "relatime"]);
    assert!(mntinfo.optional_fields.is_none());
    assert_eq!(mntinfo.fs_type, "devtmpfs");
    assert_eq!(mntinfo.mount_source, "dev");
    assert_eq!(
        mntinfo.super_options,
        [
            "rw",
            "size=7631200k",
            "nr_inodes=1907800",
            "mode=755",
            "inode64"
        ]
    );
    println!("{:?}", mntinfo);
}

#[test]
fn test_mountinfo_list() {
    let content = "22 29 0:21 / /sys rw,nosuid,nodev,noexec,relatime shared:7 - sysfs sysfs rw\n\
                   23 29 0:22 / /proc rw,nosuid,nodev,noexec,relatime shared:13 - proc proc rw\n\
                   29 1 8:2 / / rw,relatime shared:1 - ext4 /dev/sda2 rw,errors=remount-ro\n";
    let list = get_mountinfo_list(content).mounts;
    println!("{:#?}", list);
    assert!(!list.is_empty());
}

#[test]
fn several_optional_fields_are_kept_in_order() {
    let line = "36 35 98:0 /mnt1 /mnt2 rw,noatime master:1 propagate_from:2 unbindable - ext3 /dev/root rw,errors=continue";
    let m = parse_mountinfo(line).unwrap();
    assert_eq!(
        m.optional_fields,
        Some(strings(&["master:1", "propagate_from:2", "unbindable"]))
    );
    assert_eq!(m.fs_type, "ext3");
    assert_eq!(m.mount_source, "/dev/root");
    assert_eq!(m.super_options, ["rw", "errors=continue"]);
}

#[test]
fn optional_fields_are_never_an_empty_list() {
    let m = parse_mountinfo("1 2 3:4 / /a rw - ext4 /dev/a rw").unwrap();
    assert_eq!(m.optional_fields, None);
    let m = parse_mountinfo("1 2 3:4 / /a rw  - ext4 /dev/a rw").unwrap();
    assert_eq!(m.optional_fields, Some(strings(&[""])));
}

#[test]
fn a_dash_among_the_leading_fields_is_no_separator() {
    let m = parse_mountinfo("1 2 3:4 - - - - x y z").unwrap();
    assert_eq!(m.root, "-");
    assert_eq!(m.mount_point, "-");
    assert_eq!(m.mount_options, ["-"]);
    assert_eq!(m.optional_fields, None);
    assert_eq!(m.fs_type, "x");
    assert_eq!(m.mount_source, "y");
    assert_eq!(m.super_options, ["z"]);
}

#[test]
fn fields_after_the_super_options_are_not_read() {
    let m = parse_mountinfo("1 2 3:4 / /a rw - ext4 /dev/a rw,x extra more").unwrap();
    assert_eq!(m.super_options, ["rw", "x"]);
    assert_eq!(m.mount_source, "/dev/a");
}

#[test]
fn device_field_reads_the_first_two_numbers() {
    let m = parse_mountinfo("1 2 253:17:9 / /a rw - ext4 /dev/a rw").unwrap();
    assert_eq!(m.major_dev, 253);
    assert_eq!(m.minor_dev, 17);
}

#[test]
fn numbers_may_carry_a_plus_and_leading_zeros() {
    let m = parse_mountinfo("+7 007 +0:4294967295 / /a rw - ext4 /dev/a rw").unwrap();
    assert_eq!(m.mount_id, 7);
    assert_eq!(m.parent_mount_id, 7);
    assert_eq!(m.major_dev, 0);
    assert_eq!(m.minor_dev, 4294967295);
}

#[test]
fn each_error_names_the_field_that_failed() {
    let cases: Vec<(&str, ParseError)> = vec![
        ("", ParseError::InvalidMountId),
        ("x 2 3:4 / /a rw - ext4 /dev/a rw", ParseError::InvalidMountId),
        ("-1 2 3:4 / /a rw - ext4 /dev/a rw", ParseError::InvalidMountId),
        ("4294967296 2 3:4 / /a rw - ext4 /dev/a rw", ParseError::InvalidMountId),
        ("1", ParseError::MissingParentMountId),
        ("1 ", ParseError::InvalidParentMountId),
        ("1 two 3:4 / /a rw - ext4 /dev/a rw", ParseError::InvalidParentMountId),
        ("1 2", ParseError::MissingDevice),
        ("1 2 x:4 / /a rw - ext4 /dev/a rw", ParseError::InvalidMajorDev),
        ("1 2 :4 / /a rw - ext4 /dev/a rw", ParseError::InvalidMajorDev),
        ("1 2 34 / /a rw - ext4 /dev/a rw", ParseError::MissingMinorDev),
        ("1 2 3: / /a rw - ext4 /dev/a rw", ParseError::InvalidMinorDev),
        ("1 2 3:y / /a rw - ext4 /dev/a rw", ParseError::InvalidMinorDev),
        ("1 2 3:4", ParseError::MissingRoot),
        ("1 2 3:4 /", ParseError::MissingMountPoint),
        ("1 2 3:4 / /a", ParseError::MissingMountOptions),
        ("1 2 3:4 / /a rw", ParseError::MissingSeparator),
        ("1 2 3:4 / /a rw shared:1 ext4 /dev/a rw", ParseError::MissingSeparator),
        ("1 2 3:4 / /a rw -", ParseError::MissingFsType),
        ("1 2 3:4 / /a rw shared:1 - ext4", ParseError::MissingMountSource),
        ("1 2 3:4 / /a rw - ext4 /dev/a", ParseError::MissingSuperOptions),
    ];
    for (line, expected) in cases {
        assert_eq!(parse_mountinfo(line), Err(expected), "line {:?}", line);
    }
}

#[test]
fn the_first_failing_field_decides() {
    assert_eq!(parse_mountinfo("x y"), Err(ParseError::InvalidMountId));
    assert_eq!(parse_mountinfo("1 y z"), Err(ParseError::InvalidParentMountId));
    assert_eq!(parse_mountinfo("1 2 z"), Err(ParseError::InvalidMajorDev));
}

#[test]
fn parse_options_keeps_order_duplicates_and_empty_options() {
    assert_eq!(parse_options("rw,nosuid,relatime"), ["rw", "nosuid", "relatime"]);
    assert_eq!(parse_options("rw"), ["rw"]);
    assert_eq!(parse_options("rw,rw"), ["rw", "rw"]);
    assert_eq!(parse_options(""), [""]);
    assert_eq!(parse_options("a,,b,"), ["a", "", "b", ""]);
}

#[test]
fn dev_combines_major_and_minor() {
    let mut m = sample();
    m.major_dev = 8;
    m.minor_dev = 2;
    assert_eq!(m.dev(), 2050);
    m.major_dev = 0;
    m.minor_dev = 5;
    assert_eq!(m.dev(), 5);
    m.major_dev = 259;
    m.minor_dev = 0;
    assert_eq!(m.dev(), 66304);
    m.major_dev = 1;
    m.minor_dev = 256;
    assert_eq!(m.dev(), 256);
    m.major_dev = 4294967295;
    m.minor_dev = 4294967295;
    assert_eq!(m.dev(), 1099511627775);
}

#[test]
fn remote_file_systems() {
    assert!(with_fs("nfs", "nfs-server:/export").is_remote());
    assert!(!with_fs("ext4", "/dev/sda1").is_remote());
    assert!(with_fs("cifs", "//host/share").is_remote());
    assert!(with_fs("smb3", "//host/share").is_remote());
    assert!(with_fs("smbfs", "//host/share").is_remote());
    assert!(!with_fs("smbfs", "anything").is_remote());
    assert!(!with_fs("smbfs", "/host/share").is_remote());
    assert!(!with_fs("ext4", "//host/share").is_remote());
    assert!(with_fs("afs", "anything").is_remote());
    assert!(with_fs("auristorfs", "anything").is_remote());
    assert!(with_fs("autofs", "-hosts").is_remote());
    assert!(!with_fs("autofs", "-host").is_remote());
    assert!(!with_fs("tmpfs", "").is_remote());
}

#[test]
fn dummy_file_systems() {
    for name in [
        "autofs",
        "proc",
        "subfs",
        "debugfs",
        "devpts",
        "fusectl",
        "mqueue",
        "rpc_pipefs",
        "sysfs",
        "devfs",
        "kernfs",
        "ignore",
        "none",
    ] {
        assert!(with_fs(name, "src").is_dummy(), "{}", name);
    }
    assert!(!with_fs("ext4", "/dev/sda1").is_dummy());
    assert!(!with_fs("tmpfs", "tmpfs").is_dummy());
    assert!(!with_fs("", "none").is_dummy());
    assert!(!with_fs("procfs", "proc").is_dummy());
}

#[test]
fn is_one_of_compares_whole_names() {
    assert!(is_one_of("b", &["a", "b"]));
    assert!(!is_one_of("b", &["a", "bb", ""]));
    assert!(!is_one_of("b", &[]));
}

#[test]
fn a_formatted_entry_parses_back() {
    let m = sample();
    let line = format_mountinfo(&m);
    assert_eq!(
        line,
        "36 35 98:0 /mnt1 /mnt2 rw,noatime master:1 propagate_from:2 - ext3 /dev/root rw,errors=continue"
    );
    assert_eq!(parse_mountinfo(&line), Ok(m));

    let mut bare = sample();
    bare.optional_fields = None;
    bare.mount_id = 0;
    bare.minor_dev = 4294967295;
    let line = format_mountinfo(&bare);
    assert_eq!(
        line,
        "0 35 98:4294967295 /mnt1 /mnt2 rw,noatime - ext3 /dev/root rw,errors=continue"
    );
    assert_eq!(parse_mountinfo(&line), Ok(bare));
}

#[test]
fn a_parsed_line_formats_back() {
    let line = "26 29 0:5 / /dev rw,nosuid,relatime shared:2 - devtmpfs dev rw,size=7631200k,nr_inodes=1907800,mode=755,inode64";
    assert_eq!(format_mountinfo(&parse_mountinfo(line).unwrap()), line);
}

#[test]
fn the_table_reader_skips_blank_lines_and_reports_bad_ones() {
    let content = "29 1 8:2 / / rw - ext4 /dev/sda2 rw\n\
                   \n\
                   not a mount\n\
                   \t \r\n\
                   23 29 0:22 / /proc rw shared:13 - proc proc rw\n\
                   30 29 8:3 / /home rw - ext4\n";
    let table = get_mountinfo_list(content);
    assert_eq!(table.mounts.len(), 2);
    assert_eq!(table.mounts[0].mount_point, "/");
    assert_eq!(table.mounts[1].mount_point, "/proc");
    assert_eq!(
        table.errors,
        vec![
            LineError { line: 2, error: ParseError::InvalidMountId },
            LineError { line: 5, error: ParseError::MissingMountSource },
        ]
    );
}

#[test]
fn an_empty_table_has_no_entries() {
    let table = get_mountinfo_list("");
    assert!(table.mounts.is_empty());
    assert!(table.errors.is_empty());
    let table = get_mountinfo_list("\n\n");
    assert!(table.mounts.is_empty());
    assert!(table.errors.is_empty());
}

#[test]
fn a_carriage_return_stays_in_the_last_field() {
    let table = get_mountinfo_list("29 1 8:2 / / rw - ext4 /dev/sda2 rw\r\n");
    assert_eq!(table.mounts.len(), 1);
    assert_eq!(table.mounts[0].super_options, ["rw\r"]);
}
