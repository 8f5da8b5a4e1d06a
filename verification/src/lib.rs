//! A container runtime's decisions, verified: the seccomp profile
//! compiler, cgroup limit handling, and the small rules around them.
pub mod bpf;
pub mod capabilities;
pub mod cgroups;
pub mod namespace;
pub mod overlay;
pub mod process;
pub mod rootless;
pub mod seccomp;
pub mod text;
