use boxed::namespace::{
    container_hostname, fs_setup, FsSetup, RuntimeConfig, CLONE_NEWNET, CLONE_NEWNS,
    CLONE_NEWPID, CLONE_NEWUSER, CLONE_NEWUTS,
};
use nix::sched::CloneFlags;

fn flags(rootless: bool) -> CloneFlags {
    CloneFlags::from_bits_truncate(RuntimeConfig::build_clone_flags(rootless))
}

#[test]
fn clone_flags_baseline_always_present() {
    let flags = flags(false);
    assert!(flags.contains(CloneFlags::CLONE_NEWPID));
    assert!(flags.contains(CloneFlags::CLONE_NEWUTS));
    assert!(flags.contains(CloneFlags::CLONE_NEWNS));
    assert!(flags.contains(CloneFlags::CLONE_NEWNET));
}

#[test]
fn clone_flags_excludes_newuser_when_not_rootless() {
    let flags = flags(false);
    assert!(!flags.contains(CloneFlags::CLONE_NEWUSER));
}

#[test]
fn clone_flags_includes_newuser_when_rootless() {
    let flags = flags(true);
    assert!(flags.contains(CloneFlags::CLONE_NEWUSER));
}

#[test]
fn clone_constants_match_libc() {
    assert_eq!(CLONE_NEWNS, libc::CLONE_NEWNS);
    assert_eq!(CLONE_NEWUTS, libc::CLONE_NEWUTS);
    assert_eq!(CLONE_NEWUSER, libc::CLONE_NEWUSER);
    assert_eq!(CLONE_NEWPID, libc::CLONE_NEWPID);
    assert_eq!(CLONE_NEWNET, libc::CLONE_NEWNET);
    assert_eq!(
        RuntimeConfig::build_clone_flags(false),
        libc::CLONE_NEWPID | libc::CLONE_NEWUTS | libc::CLONE_NEWNS | libc::CLONE_NEWNET
    );
}

#[test]
fn runtime_config_flags_follow_rootless() {
    let limits = boxed::cgroups::CgroupConfig {
        cpu_quota: None,
        memory_max: None,
        pids_limit: None,
        cpuset_cpus: None,
        cpuset_mems: None,
        io_max: Vec::new(),
    };
    let rootless = boxed::rootless::RootlessConfig::new(true, None, None).ok().unwrap();
    let rt = RuntimeConfig::new(limits, rootless);
    assert_eq!(rt.flags, RuntimeConfig::build_clone_flags(true));
}

#[test]
fn filesystem_choice() {
    assert!(matches!(fs_setup(&Some("/img".to_string()), &None), FsSetup::Overlay(d) if d == "/img"));
    assert!(matches!(fs_setup(&None, &Some("/root".to_string())), FsSetup::Rootfs(d) if d == "/root"));
    assert!(matches!(fs_setup(&None, &None), FsSetup::Host));
}

#[test]
fn hostname_defaults_to_boxed() {
    assert_eq!(container_hostname(&None), "boxed");
    assert_eq!(container_hostname(&Some("web".to_string())), "web");
}
