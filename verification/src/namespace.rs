//! What the container is started with: namespace flags, the root
//! filesystem to use, and the hostname.
use vstd::prelude::*;

use crate::cgroups::CgroupConfig;
use crate::rootless::RootlessConfig;
use crate::seccomp::ResolvedProfile;
use crate::text::owned;

verus! {

/// A new mount namespace.
pub const CLONE_NEWNS: i32 = 0x00020000;

/// A new UTS namespace (hostname).
pub const CLONE_NEWUTS: i32 = 0x04000000;

/// A new user namespace.
pub const CLONE_NEWUSER: i32 = 0x10000000;

/// A new PID namespace.
pub const CLONE_NEWPID: i32 = 0x20000000;

/// A new network namespace.
pub const CLONE_NEWNET: i32 = 0x40000000;

/// The hostname a container gets when none is asked for.
pub const DEFAULT_HOSTNAME: &'static str = "boxed";

/// Everything a container run is asked for.
pub struct RunOptions {
    pub command: Vec<String>,
    pub rootfs: Option<String>,
    pub image: Option<String>,
    pub hostname: Option<String>,
    pub limits: CgroupConfig,
    pub seccomp_profile: Option<ResolvedProfile>,
}

/// The settings the parent side of a run works from.
pub struct RuntimeConfig {
    pub limits: CgroupConfig,
    pub flags: i32,
    pub rootless: RootlessConfig,
}

/// The flag set has every bit of `flag`.
pub open spec fn has_flag(flags: i32, flag: i32) -> bool {
    flags & flag == flag
}

/// The clone flags: new PID, UTS, mount and network namespaces always,
/// and a new user namespace exactly in rootless mode.
pub open spec fn clone_flags_spec(is_rootless: bool) -> i32 {
    if is_rootless {
        CLONE_NEWPID | CLONE_NEWUTS | CLONE_NEWNS | CLONE_NEWNET | CLONE_NEWUSER
    } else {
        CLONE_NEWPID | CLONE_NEWUTS | CLONE_NEWNS | CLONE_NEWNET
    }
}

impl RuntimeConfig {
    pub fn new(limits: CgroupConfig, rootless: RootlessConfig) -> (r: RuntimeConfig)
        ensures
            r.limits == limits,
            r.rootless == rootless,
            r.flags == clone_flags_spec(rootless.enabled),
    {
        let flags = Self::build_clone_flags(rootless.enabled);
        RuntimeConfig { limits, flags, rootless }
    }

    /// The flags `clone` creates the container with.
    pub fn build_clone_flags(is_rootless: bool) -> (flags: i32)
        ensures
            flags == clone_flags_spec(is_rootless),
            has_flag(flags, CLONE_NEWPID),
            has_flag(flags, CLONE_NEWUTS),
            has_flag(flags, CLONE_NEWNS),
            has_flag(flags, CLONE_NEWNET),
            has_flag(flags, CLONE_NEWUSER) == is_rootless,
    {
        let mut flags = CLONE_NEWPID | CLONE_NEWUTS | CLONE_NEWNS | CLONE_NEWNET;
        assert(has_flag(flags, CLONE_NEWPID) && has_flag(flags, CLONE_NEWUTS) && has_flag(
            flags,
            CLONE_NEWNS,
        ) && has_flag(flags, CLONE_NEWNET) && !has_flag(flags, CLONE_NEWUSER)) by (bit_vector)
            requires
                flags == 0x20000000i32 | 0x04000000i32 | 0x00020000i32 | 0x40000000i32,
        ;
        if is_rootless {
            flags = flags | CLONE_NEWUSER;
            assert(has_flag(flags, CLONE_NEWPID) && has_flag(flags, CLONE_NEWUTS) && has_flag(
                flags,
                CLONE_NEWNS,
            ) && has_flag(flags, CLONE_NEWNET) && has_flag(flags, CLONE_NEWUSER)) by (bit_vector)
                requires
                    flags == (0x20000000i32 | 0x04000000i32 | 0x00020000i32 | 0x40000000i32)
                        | 0x10000000i32,
            ;
        }
        flags
    }
}

/// How the container's root filesystem is set up.
pub enum FsSetup {
    /// Stack the layers of this image directory with overlayfs.
    Overlay(String),
    /// Use this directory as the root filesystem.
    Rootfs(String),
    /// Keep the host's filesystem.
    Host,
}

/// The root filesystem for `--image` and `--rootfs`, which cannot both be
/// given.
pub fn fs_setup(image: &Option<String>, rootfs: &Option<String>) -> (r: FsSetup)
    requires
        !(image is Some && rootfs is Some),
    ensures
        match (image, rootfs) {
            (Some(i), _) => r matches FsSetup::Overlay(d) && d@ == i@,
            (None, Some(p)) => r matches FsSetup::Rootfs(d) && d@ == p@,
            (None, None) => r is Host,
        },
{
    match (image, rootfs) {
        (Some(image), None) => FsSetup::Overlay(image.clone()),
        (None, Some(rootfs)) => FsSetup::Rootfs(rootfs.clone()),
        _ => FsSetup::Host,
    }
}

/// The container's hostname: the one asked for, or `boxed`.
pub fn container_hostname(hostname: &Option<String>) -> (r: String)
    ensures
        match hostname {
            Some(h) => r@ == h@,
            None => r@ == DEFAULT_HOSTNAME@,
        },
{
    match hostname {
        Some(h) => h.clone(),
        None => owned(DEFAULT_HOSTNAME),
    }
}

} // verus!
