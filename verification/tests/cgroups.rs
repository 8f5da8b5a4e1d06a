use boxed::cgroups::{
    cgroup_path, check_device, check_io_max, cpu_max_value, io_max_line, parse_io_max,
    render_io_max, resolve_device, validate_controllers,
    Cgroup, CgroupConfig, CgroupError, IoMaxError, CGROUP_ROOT,
};

fn config(
    cpu_quota: Option<u64>,
    memory_max: Option<u64>,
    pids_limit: Option<u64>,
    cpuset_cpus: Option<&str>,
    cpuset_mems: Option<&str>,
    io_max: Vec<&str>,
) -> CgroupConfig {
    CgroupConfig {
        cpu_quota,
        memory_max,
        pids_limit,
        cpuset_cpus: cpuset_cpus.map(|s| s.to_string()),
        cpuset_mems: cpuset_mems.map(|s| s.to_string()),
        io_max: io_max.into_iter().map(|s| s.to_string()).collect(),
    }
}

#[test]
fn config_all_none() {
    let config = CgroupConfig {
        cpu_quota: None,
        memory_max: None,
        pids_limit: None,
        cpuset_cpus: None,
        cpuset_mems: None,
        io_max: Vec::new(),
    };
    assert!(config.is_noop());
}

#[test]
fn config_with_values() {
    let config = CgroupConfig {
        cpu_quota: Some(50_000),
        memory_max: Some(256 * 1024 * 1024),
        pids_limit: Some(100),
        cpuset_cpus: Some("0-1".to_string()),
        cpuset_mems: Some("0".to_string()),
        io_max: vec!["/dev/sda:wbps=1048576".to_string()],
    };
    assert_eq!(config.cpu_quota, Some(50_000));
    assert_eq!(config.memory_max, Some(268_435_456));
    assert_eq!(config.pids_limit, Some(100));
    assert_eq!(config.cpuset_cpus.as_deref(), Some("0-1"));
    assert_eq!(config.cpuset_mems.as_deref(), Some("0"));
    assert_eq!(config.io_max, vec!["/dev/sda:wbps=1048576"]);
    assert!(!config.is_noop());
}

#[test]
fn config_with_only_io_max_is_not_noop() {
    // io_max is the one field held in a Vec, so emptiness rather than
    // None decides whether a cgroup is created at all.
    let config = CgroupConfig {
        cpu_quota: None,
        memory_max: None,
        pids_limit: None,
        cpuset_cpus: None,
        cpuset_mems: None,
        io_max: vec!["/dev/sda:wbps=1048576".to_string()],
    };
    assert!(!config.is_noop());
}

#[test]
fn cpu_quota_string_format() {
    assert_eq!(cpu_max_value(50_000u64), "50000 100000");
    assert_eq!(cpu_max_value(10_000u64), "10000 100000");
    assert_eq!(cpu_max_value(100_000u64), "100000 100000");
}

#[test]
fn cgroup_path_contains_pid() {
    let pid: u32 = 1234;
    let path = cgroup_path(pid);
    assert_eq!(path, "/sys/fs/cgroup/boxed/1234");
    assert_eq!(Cgroup::for_pid(pid).path, "/sys/fs/cgroup/boxed/1234");
}

#[test]
fn cgroup_path_unique_per_pid() {
    let p1 = cgroup_path(100u32);
    let p2 = cgroup_path(200u32);
    assert_ne!(p1, p2);
}

#[test]
fn cgroup_path_of_pid_zero_and_max() {
    assert_eq!(cgroup_path(0), format!("{}/0", CGROUP_ROOT));
    assert_eq!(cgroup_path(u32::MAX), "/sys/fs/cgroup/boxed/4294967295");
}

#[test]
fn noop_config_needs_no_controller() {
    let c = config(None, None, None, None, None, vec![]);
    assert!(c.required_controllers().is_empty());
    assert!(c.controller_writes().is_empty());
}

#[test]
fn required_controllers_in_order_and_cpuset_once() {
    let c = config(
        Some(1),
        Some(2),
        Some(3),
        Some("0"),
        Some("0"),
        vec!["/dev/sda:rbps=1"],
    );
    let req = c.required_controllers();
    let names: Vec<&str> = req.iter().map(|r| r.name).collect();
    assert_eq!(names, vec!["cpu", "memory", "pids", "cpuset", "io"]);
    let flags: Vec<&str> = req.iter().map(|r| r.flag).collect();
    assert_eq!(
        flags,
        vec!["--cpu", "--memory", "--pids-limit", "--cpuset-cpus/--cpuset-mems", "--io-max"]
    );
    let only_mems = config(None, None, None, None, Some("1"), vec![]);
    let names: Vec<&str> = only_mems.required_controllers().iter().map(|r| r.name).collect();
    assert_eq!(names, vec!["cpuset"]);
}

#[test]
fn controller_writes_values() {
    let c = config(
        Some(50_000),
        Some(268_435_456),
        Some(100),
        Some("0-1"),
        Some("0"),
        vec![],
    );
    let writes: Vec<(&str, String)> = c
        .controller_writes()
        .into_iter()
        .map(|w| (w.file, w.value))
        .collect();
    assert_eq!(
        writes,
        vec![
            ("cpu.max", "50000 100000".to_string()),
            ("memory.max", "268435456".to_string()),
            ("pids.max", "100".to_string()),
            ("cpuset.cpus", "0-1".to_string()),
            ("cpuset.mems", "0".to_string()),
        ]
    );
    let mem_only = config(None, Some(0), None, None, None, vec![]);
    let writes: Vec<(&str, String)> = mem_only
        .controller_writes()
        .into_iter()
        .map(|w| (w.file, w.value))
        .collect();
    assert_eq!(writes, vec![("memory.max", "0".to_string())]);
}

#[test]
fn subtree_control_line_enables_required() {
    let c = config(Some(1), Some(2), None, Some("0"), None, vec![]);
    let available: Vec<String> = ["cpuset", "cpu", "io", "memory", "pids"]
        .iter()
        .map(|s| s.to_string())
        .collect();
    let line = validate_controllers(&c.required_controllers(), &available).ok().unwrap();
    assert_eq!(line, "+cpu +memory +cpuset");
    let none = config(None, None, None, None, None, vec![]);
    assert_eq!(
        validate_controllers(&none.required_controllers(), &available).ok().unwrap(),
        ""
    );
}

#[test]
fn missing_controller_names_flag_and_available() {
    let c = config(Some(1), None, Some(5), None, None, vec![]);
    let available = vec!["cpu".to_string(), "memory".to_string()];
    match validate_controllers(&c.required_controllers(), &available) {
        Err(CgroupError::ControllerUnavailable { flag, name, available }) => {
            assert_eq!(flag, "--pids-limit");
            assert_eq!(name, "pids");
            assert_eq!(available, vec!["cpu".to_string(), "memory".to_string()]);
        }
        _ => panic!("expected a missing controller"),
    }
}

#[test]
fn parse_io_max_valid() {
    let parsed = parse_io_max("/dev/sda:wbps=1048576,riops=+20").ok().unwrap();
    assert_eq!(parsed.device, "/dev/sda");
    assert_eq!(
        parsed.limits,
        vec![("wbps".to_string(), 1048576), ("riops".to_string(), 20)]
    );
    // Only the first ':' separates the device.
    let parsed = parse_io_max("a:b:rbps=1").err().unwrap();
    assert!(matches!(parsed, IoMaxError::UnknownKey(k) if k == "b:rbps"));
}

#[test]
fn parse_io_max_errors() {
    assert!(matches!(
        parse_io_max("/dev/sda").err().unwrap(),
        IoMaxError::MissingColon(s) if s == "/dev/sda"
    ));
    assert!(matches!(
        parse_io_max(":wbps=1").err().unwrap(),
        IoMaxError::EmptyDevice(_)
    ));
    assert!(matches!(
        parse_io_max("/dev/sda:").err().unwrap(),
        IoMaxError::NoLimits(_)
    ));
    assert!(matches!(
        parse_io_max("/dev/sda:wbps").err().unwrap(),
        IoMaxError::MissingEquals(p) if p == "wbps"
    ));
    assert!(matches!(
        parse_io_max("/dev/sda:wpbs=1048576").err().unwrap(),
        IoMaxError::UnknownKey(k) if k == "wpbs"
    ));
    assert!(matches!(
        parse_io_max("/dev/sda:wbps=1,,rbps=2").err().unwrap(),
        IoMaxError::MissingEquals(p) if p.is_empty()
    ));
    assert!(matches!(
        parse_io_max("/dev/sda:wbps=-1").err().unwrap(),
        IoMaxError::BadValue { value, key } if value == "-1" && key == "wbps"
    ));
    assert!(matches!(
        parse_io_max("/dev/sda:rbps=18446744073709551616").err().unwrap(),
        IoMaxError::BadValue { .. }
    ));
    assert_eq!(
        parse_io_max("/dev/sda:rbps=18446744073709551615").ok().unwrap().limits,
        vec![("rbps".to_string(), u64::MAX)]
    );
    // The first bad limit decides the error.
    assert!(matches!(
        parse_io_max("/dev/sda:foo=1,wbps=x").err().unwrap(),
        IoMaxError::UnknownKey(k) if k == "foo"
    ));
}

#[test]
fn io_max_line_rendering() {
    let limits = vec![("wbps".to_string(), 1048576u64), ("riops".to_string(), 7u64)];
    assert_eq!(render_io_max("8:0", &limits), "8:0 wbps=1048576 riops=7");
    assert_eq!(render_io_max("8:16", &Vec::new()), "8:16");
}

#[test]
fn io_max_line_carries_requested_limits() {
    let spec = "/dev/sda:wbps=1048576,riops=7,rbps=0";
    let parsed = parse_io_max(spec).ok().unwrap();
    let after_colon = spec.split_once(':').unwrap().1;
    assert_eq!(
        render_io_max("8:0", &parsed.limits),
        format!("8:0 {}", after_colon.replace(',', " "))
    );
    assert_eq!(
        render_io_max("259:3", &parsed.limits),
        "259:3 wbps=1048576 riops=7 rbps=0"
    );
}

#[test]
fn io_max_checks_follow_stat_outcomes() {
    let block = Ok((0o060660u32, nix::sys::stat::makedev(8, 0)));
    let chr = Ok((0o020666u32, nix::sys::stat::makedev(1, 3)));
    let specs = vec!["/dev/sda:wbps=1".to_string(), "/dev/sdb:riops=2".to_string()];
    assert!(check_io_max(&specs, &[block, block]).is_ok());
    assert!(check_io_max(&[], &[]).is_ok());
    assert!(matches!(
        check_io_max(&specs, &[block, chr]).err().unwrap(),
        CgroupError::NotBlockDevice(p) if p == "/dev/sdb"
    ));
    // The first failing entry decides, whether it fails to parse or to stat.
    assert!(matches!(
        check_io_max(&specs, &[Err(libc::ENOENT), chr]).err().unwrap(),
        CgroupError::StatFailed { path, errno } if path == "/dev/sda" && errno == libc::ENOENT
    ));
    let specs = vec!["/dev/sda:bogus=1".to_string(), "/dev/sdb:riops=2".to_string()];
    assert!(matches!(
        check_io_max(&specs, &[block, chr]).err().unwrap(),
        CgroupError::IoMax(IoMaxError::UnknownKey(k)) if k == "bogus"
    ));
}

#[test]
fn devices_are_asked_of_stat() {
    assert!(matches!(
        resolve_device("/dev/null").err().unwrap(),
        CgroupError::NotBlockDevice(p) if p == "/dev/null"
    ));
    assert!(matches!(
        resolve_device("/nonexistent-device").err().unwrap(),
        CgroupError::StatFailed { path, errno } if path == "/nonexistent-device" && errno == libc::ENOENT
    ));
    assert!(matches!(
        io_max_line("/dev/null:wbps=1").err().unwrap(),
        CgroupError::NotBlockDevice(p) if p == "/dev/null"
    ));
    assert!(matches!(
        io_max_line("/dev/null").err().unwrap(),
        CgroupError::IoMax(IoMaxError::MissingColon(_))
    ));
}

#[test]
fn device_numbers_from_stat() {
    // A block device: mode S_IFBLK, rdev for 8:0 and for a large number.
    let rdev = nix::sys::stat::makedev(8, 0);
    assert_eq!(check_device("/dev/sda", Ok((0o060660, rdev))).ok().unwrap(), "8:0");
    let rdev = nix::sys::stat::makedev(259, 1048575);
    assert_eq!(
        check_device("/dev/nvme0n1", Ok((0o060660, rdev))).ok().unwrap(),
        "259:1048575"
    );
    // /dev/null is a character device: refused.
    let rdev = nix::sys::stat::makedev(1, 3);
    assert!(matches!(
        check_device("/dev/null", Ok((0o020666, rdev))).err().unwrap(),
        CgroupError::NotBlockDevice(p) if p == "/dev/null"
    ));
    assert!(matches!(
        check_device("/nope", Err(libc::ENOENT)).err().unwrap(),
        CgroupError::StatFailed { path, errno } if path == "/nope" && errno == libc::ENOENT
    ));
}

#[test]
fn validate_rejects_bad_io_max() {
    let c = config(None, None, None, None, None, vec!["/dev/sda"]);
    assert!(matches!(
        c.validate().err().unwrap(),
        CgroupError::IoMax(IoMaxError::MissingColon(_))
    ));
    let c = config(None, None, None, None, None, vec!["/dev/null:wbps=1048576"]);
    assert!(matches!(
        c.validate().err().unwrap(),
        CgroupError::NotBlockDevice(p) if p == "/dev/null"
    ));
    let c = config(None, None, None, None, None, vec!["/nonexistent-device:wbps=1"]);
    assert!(matches!(c.validate().err().unwrap(), CgroupError::StatFailed { .. }));
    let c = config(Some(1), None, None, None, None, vec![]);
    assert!(c.validate().is_ok());
}

#[test]
fn stat_constants_match_libc() {
    assert_eq!(boxed::cgroups::S_IFMT, libc::S_IFMT);
    assert_eq!(boxed::cgroups::S_IFBLK, libc::S_IFBLK);
}
