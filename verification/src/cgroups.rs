//! cgroup v2 limits: which controllers a configuration needs, what each
//! controller file is written with, and the `--io-max` syntax.
use vstd::prelude::*;

use crate::text::{
    lemma_decimal_has_no, lemma_decimal_round_trip, lemma_split_once_at,
    chars_of, copy_strings, decimal, decimal_string, find_char, first_index, join, lemma_first_index,
    lemma_split_all_nonempty, lemma_split_replace, owned, parse_u64, parse_u64_spec, push_char,
    push_str, replace_char, split_all, split_chars, split_once, str_eq, string_of, strings_view,
};

verus! {

/// Parent cgroup holding one child cgroup per container.
pub const CGROUP_ROOT: &'static str = "/sys/fs/cgroup/boxed";

/// The scheduling period that a CPU quota is a share of, in microseconds.
pub const CPU_PERIOD: u64 = 100000;

/// The resource limits asked for on the command line.
pub struct CgroupConfig {
    pub cpu_quota: Option<u64>,
    pub memory_max: Option<u64>,
    pub pids_limit: Option<u64>,
    pub cpuset_cpus: Option<String>,
    pub cpuset_mems: Option<String>,
    pub io_max: Vec<String>,
}

/// A cgroup v2 controller paired with the flag that requests it, so that
/// the flag named in an error cannot drift from the controller.
pub struct RequiredController {
    pub name: &'static str,
    pub flag: &'static str,
}

/// One controller file of the container's cgroup and what goes into it.
pub struct ControllerWrite {
    pub file: &'static str,
    pub value: String,
}

/// A container's cgroup directory.
pub struct Cgroup {
    pub path: String,
}

/// No limit at all is asked for.
pub open spec fn noop_spec(c: CgroupConfig) -> bool {
    c.cpu_quota is None && c.memory_max is None && c.pids_limit is None && c.cpuset_cpus is None
        && c.cpuset_mems is None && c.io_max@.len() == 0
}

/// One parsed `--io-max` value: the device it names, and the limits asked for it.
#[derive(Debug, PartialEq, Eq)]
pub struct IoMax {
    pub device: String,
    pub limits: Vec<(String, u64)>,
}

/// The limits as character sequences and numbers.
pub open spec fn limits_view(l: Seq<(String, u64)>) -> Seq<(Seq<char>, u64)> {
    l.map_values(|p: (String, u64)| (p.0@, p.1))
}

impl View for IoMax {
    type V = (Seq<char>, Seq<(Seq<char>, u64)>);

    open spec fn view(&self) -> (Seq<char>, Seq<(Seq<char>, u64)>) {
        (self.device@, limits_view(self.limits@))
    }
}

/// Why an `--io-max` value was refused, over character sequences.
pub enum IoMaxFault {
    MissingColon(Seq<char>),
    EmptyDevice(Seq<char>),
    NoLimits(Seq<char>),
    MissingEquals(Seq<char>),
    UnknownKey(Seq<char>),
    BadValue(Seq<char>, Seq<char>),
}

/// Why an `--io-max` value was refused.
pub enum IoMaxError {
    /// No `:` between device and limits; carries the whole value.
    MissingColon(String),
    /// Nothing before the `:`; carries the whole value.
    EmptyDevice(String),
    /// Nothing after the `:`; carries the whole value.
    NoLimits(String),
    /// A limit without `=`; carries that limit.
    MissingEquals(String),
    /// A key other than rbps, wbps, riops and wiops; carries the key.
    UnknownKey(String),
    /// A value that is not a `u64`; carries the value and its key.
    BadValue { value: String, key: String },
}

impl View for IoMaxError {
    type V = IoMaxFault;

    open spec fn view(&self) -> IoMaxFault {
        match self {
            IoMaxError::MissingColon(s) => IoMaxFault::MissingColon(s@),
            IoMaxError::EmptyDevice(s) => IoMaxFault::EmptyDevice(s@),
            IoMaxError::NoLimits(s) => IoMaxFault::NoLimits(s@),
            IoMaxError::MissingEquals(p) => IoMaxFault::MissingEquals(p@),
            IoMaxError::UnknownKey(k) => IoMaxFault::UnknownKey(k@),
            IoMaxError::BadValue { value, key } => IoMaxFault::BadValue(value@, key@),
        }
    }
}

/// Why setting up or checking the limits failed.
pub enum CgroupError {
    /// An `--io-max` value is malformed.
    IoMax(IoMaxError),
    /// `stat` on an `--io-max` device failed with this errno.
    StatFailed { path: String, errno: i32 },
    /// An `--io-max` device is not a block device.
    NotBlockDevice(String),
    /// A controller that a flag needs was not delegated to the parent
    /// cgroup; carries the flag, the controller, and what is available.
    ControllerUnavailable { flag: String, name: String, available: Vec<String> },
}

/// Why setting up or checking the limits failed, over character sequences.
pub enum CgroupFault {
    IoMax(IoMaxFault),
    StatFailed(Seq<char>, i32),
    NotBlockDevice(Seq<char>),
    ControllerUnavailable(Seq<char>, Seq<char>, Seq<Seq<char>>),
}

impl View for CgroupError {
    type V = CgroupFault;

    open spec fn view(&self) -> CgroupFault {
        match self {
            CgroupError::IoMax(e) => CgroupFault::IoMax(e@),
            CgroupError::StatFailed { path, errno } => CgroupFault::StatFailed(path@, *errno),
            CgroupError::NotBlockDevice(p) => CgroupFault::NotBlockDevice(p@),
            CgroupError::ControllerUnavailable { flag, name, available } => CgroupFault::ControllerUnavailable(
                flag@,
                name@,
                strings_view(available@),
            ),
        }
    }
}

/// What `stat` said of a file: its mode and device number, or the errno.
pub type StatOutcome = Result<(u32, u64), i32>;

/// The only keys `io.max` accepts.
pub open spec fn io_max_keys() -> Seq<Seq<char>> {
    seq!["rbps"@, "wbps"@, "riops"@, "wiops"@]
}

/// What one `KEY=VALUE` limit reads as.
pub open spec fn limit_spec(pair: Seq<char>) -> Result<(Seq<char>, u64), IoMaxFault> {
    match split_once(pair, '=') {
        None => Err(IoMaxFault::MissingEquals(pair)),
        Some((k, v)) => if !io_max_keys().contains(k) {
            Err(IoMaxFault::UnknownKey(k))
        } else {
            match parse_u64_spec(v) {
                None => Err(IoMaxFault::BadValue(v, k)),
                Some(n) => Ok((k, n)),
            }
        },
    }
}

/// What a list of limits reads as: all of them, or the first refusal.
pub open spec fn limits_spec(pairs: Seq<Seq<char>>) -> Result<Seq<(Seq<char>, u64)>, IoMaxFault>
    decreases pairs.len(),
{
    if pairs.len() == 0 {
        Ok(Seq::<(Seq<char>, u64)>::empty())
    } else {
        match limits_spec(pairs.drop_last()) {
            Err(e) => Err(e),
            Ok(done) => match limit_spec(pairs.last()) {
                Err(e) => Err(e),
                Ok(l) => Ok(done.push(l)),
            },
        }
    }
}

/// What a whole `DEVICE:KEY=VALUE[,KEY=VALUE...]` value reads as.
pub open spec fn io_max_spec(s: Seq<char>) -> Result<(Seq<char>, Seq<(Seq<char>, u64)>), IoMaxFault> {
    match split_once(s, ':') {
        None => Err(IoMaxFault::MissingColon(s)),
        Some((device, limits)) => if device.len() == 0 {
            Err(IoMaxFault::EmptyDevice(s))
        } else if limits.len() == 0 {
            Err(IoMaxFault::NoLimits(s))
        } else {
            match limits_spec(split_all(limits, ',')) {
                Err(e) => Err(e),
                Ok(ls) => Ok((device, ls)),
            }
        },
    }
}

proof fn lemma_limits_fail_prefix(pairs: Seq<Seq<char>>, k: int)
    requires
        0 <= k <= pairs.len(),
        limits_spec(pairs.take(k)) is Err,
    ensures
        limits_spec(pairs) == limits_spec(pairs.take(k)),
    decreases pairs.len() - k,
{
    if k < pairs.len() {
        assert(pairs.take(k + 1).drop_last() =~= pairs.take(k));
        lemma_limits_fail_prefix(pairs, k + 1);
    } else {
        assert(pairs.take(k) =~= pairs);
    }
}

/// Whether `key` is one of the keys `io.max` accepts.
fn is_io_max_key(key: &str) -> (r: bool)
    ensures
        r == io_max_keys().contains(key@),
{
    let r = str_eq(key, "rbps") || str_eq(key, "wbps") || str_eq(key, "riops") || str_eq(key, "wiops");
    proof {
        let keys = io_max_keys();
        if r {
            if key@ == "rbps"@ {
                assert(keys[0] == key@);
            } else if key@ == "wbps"@ {
                assert(keys[1] == key@);
            } else if key@ == "riops"@ {
                assert(keys[2] == key@);
            } else {
                assert(keys[3] == key@);
            }
        } else {
            assert forall|i: int| 0 <= i < keys.len() implies keys[i] != key@ by {
                if i == 0 {
                } else if i == 1 {
                } else if i == 2 {
                } else {
                }
            }
        }
    }
    r
}

/// Cuts `v` at the first `c` into two strings.
fn split_once_chars(v: &Vec<char>, c: char) -> (r: Option<(String, String)>)
    ensures
        match r {
            Some((a, b)) => split_once(v@, c) == Some((a@, b@)),
            None => split_once(v@, c) is None,
        },
{
    match find_char(v, c) {
        Some(i) => {
            proof {
                lemma_first_index(v@, c);
            }
            let a = string_of(v, 0, i);
            let b = string_of(v, i + 1, v.len());
            assert(a@ =~= v@.take(i as int));
            assert(b@ =~= v@.skip(i + 1));
            Some((a, b))
        },
        None => None,
    }
}

/// Reads one `KEY=VALUE` limit.
fn parse_limit(pair: &str) -> (r: Result<(String, u64), IoMaxError>)
    ensures
        match r {
            Ok(l) => limit_spec(pair@) == Ok::<(Seq<char>, u64), IoMaxFault>((l.0@, l.1)),
            Err(e) => limit_spec(pair@) == Err::<(Seq<char>, u64), IoMaxFault>(e@),
        },
{
    let v = chars_of(pair);
    match split_once_chars(&v, '=') {
        None => Err(IoMaxError::MissingEquals(owned(pair))),
        Some((key, value)) => {
            if !is_io_max_key(key.as_str()) {
                return Err(IoMaxError::UnknownKey(key));
            }
            match parse_u64(value.as_str()) {
                None => Err(IoMaxError::BadValue { value, key }),
                Some(n) => Ok((key, n)),
            }
        },
    }
}

/// Reads one `--io-max` value: `DEVICE:KEY=VALUE[,KEY=VALUE...]`, where
/// each key is one of rbps, wbps, riops and wiops and each value a `u64`.
pub fn parse_io_max(spec: &str) -> (r: Result<IoMax, IoMaxError>)
    ensures
        match r {
            Ok(m) => io_max_spec(spec@) == Ok::<(Seq<char>, Seq<(Seq<char>, u64)>), IoMaxFault>(m@),
            Err(e) => io_max_spec(spec@) == Err::<(Seq<char>, Seq<(Seq<char>, u64)>), IoMaxFault>(e@),
        },
{
    let v = chars_of(spec);
    let (device, limits) = match split_once_chars(&v, ':') {
        None => {
            return Err(IoMaxError::MissingColon(owned(spec)));
        },
        Some(parts) => parts,
    };
    if device.as_str().is_empty() {
        return Err(IoMaxError::EmptyDevice(owned(spec)));
    }
    if limits.as_str().is_empty() {
        return Err(IoMaxError::NoLimits(owned(spec)));
    }
    let limit_chars = chars_of(limits.as_str());
    let pairs = split_chars(&limit_chars, ',');
    let ghost pv = pairs@.map_values(|p: String| p@);
    let mut parsed: Vec<(String, u64)> = Vec::new();
    let mut i: usize = 0;
    assert(pv.take(0) =~= Seq::<Seq<char>>::empty());
    assert(limits_view(parsed@) =~= Seq::<(Seq<char>, u64)>::empty());
    while i < pairs.len()
        invariant
            i <= pairs.len(),
            pv == pairs@.map_values(|p: String| p@),
            pv == split_all(limits@, ','),
            split_once(spec@, ':') == Some((device@, limits@)),
            device@.len() > 0,
            limits@.len() > 0,
            limits_spec(pv.take(i as int)) == Ok::<Seq<(Seq<char>, u64)>, IoMaxFault>(
                limits_view(parsed@),
            ),
        decreases pairs.len() - i,
    {
        assert(pv.take(i + 1).drop_last() =~= pv.take(i as int));
        assert(pv.take(i + 1).last() == pairs@[i as int]@);
        match parse_limit(pairs[i].as_str()) {
            Ok(l) => {
                let ghost before = limits_view(parsed@);
                parsed.push(l);
                assert(limits_view(parsed@) =~= before.push((l.0@, l.1)));
            },
            Err(e) => {
                proof {
                    lemma_limits_fail_prefix(pv, i as int + 1);
                }
                return Err(e);
            },
        }
        i = i + 1;
    }
    assert(pv.take(i as int) =~= pv);
    Ok(IoMax { device, limits: parsed })
}

/// The device number part of an `io.max` line followed by its limits,
/// each as ` KEY=VALUE`.
pub open spec fn render_limits(limits: Seq<(Seq<char>, u64)>) -> Seq<char>
    decreases limits.len(),
{
    if limits.len() == 0 {
        Seq::<char>::empty()
    } else {
        render_limits(limits.drop_last()) + seq![' '] + limits.last().0 + seq!['='] + decimal(
            limits.last().1 as nat,
        )
    }
}

/// Writes an `io.max` line: the device number, then ` KEY=VALUE` per limit.
pub fn render_io_max(device_number: &str, limits: &Vec<(String, u64)>) -> (line: String)
    ensures
        line@ == device_number@ + render_limits(limits_view(limits@)),
{
    let mut line = owned(device_number);
    let ghost lv = limits_view(limits@);
    let mut i: usize = 0;
    while i < limits.len()
        invariant
            i <= limits.len(),
            lv == limits_view(limits@),
            line@ == device_number@ + render_limits(lv.take(i as int)),
        decreases limits.len() - i,
    {
        let (key, value) = &limits[i];
        assert(lv.take(i + 1).drop_last() =~= lv.take(i as int));
        push_char(&mut line, ' ');
        push_str(&mut line, key.as_str());
        push_char(&mut line, '=');
        let number = decimal_string(*value);
        push_str(&mut line, number.as_str());
        i = i + 1;
        assert(line@ =~= device_number@ + render_limits(lv.take(i as int)));
    }
    assert(lv.take(i as int) =~= lv);
    line
}

/// `S_IFMT`: the bits of a mode that give the file type.
pub const S_IFMT: u32 = 0o170000;

/// `S_IFBLK`: the file type of a block device.
pub const S_IFBLK: u32 = 0o060000;

/// The mode is that of a block device.
pub open spec fn is_block_device(mode: u32) -> bool {
    mode & S_IFMT == S_IFBLK
}

/// The major number of a Linux device number.
pub open spec fn major_spec(dev: u64) -> u64 {
    ((dev >> 32u64) & 0xffff_f000u64) | ((dev >> 8u64) & 0x0000_0fffu64)
}

/// The minor number of a Linux device number.
pub open spec fn minor_spec(dev: u64) -> u64 {
    ((dev >> 12u64) & 0xffff_ff00u64) | (dev & 0x0000_00ffu64)
}

/// `MAJOR:MINOR`, the form `io.max` names a device in.
pub open spec fn device_number_text(rdev: u64) -> Seq<char> {
    decimal(major_spec(rdev) as nat) + seq![':'] + decimal(minor_spec(rdev) as nat)
}

/// What checking a device gives for what `stat` said of it: the
/// `MAJOR:MINOR` of a block device, or why it is refused.
pub open spec fn device_check_spec(path: Seq<char>, st: StatOutcome) -> Result<Seq<char>, CgroupFault> {
    match st {
        Err(errno) => Err(CgroupFault::StatFailed(path, errno)),
        Ok((mode, rdev)) => if !is_block_device(mode) {
            Err(CgroupFault::NotBlockDevice(path))
        } else {
            Ok(device_number_text(rdev))
        },
    }
}

/// The file type and device number of `path`, or the errno of `stat`.
/// `nix::sys::stat::stat` asks the kernel about a file on disk: nothing is
/// stated of what it returns.
#[verifier::external_body]
fn stat_path(path: &str) -> (r: StatOutcome) {
    match nix::sys::stat::stat(path) {
        Ok(st) => Ok((st.st_mode, st.st_rdev)),
        Err(e) => Err(e as i32),
    }
}

/// `st` is what `stat_path` gave back when it was handed `path`. Nothing
/// says which outcome that is: this holds only of outcomes that a call of
/// `stat_path` on this very path returned.
pub closed spec fn stat_gave(path: Seq<char>, st: StatOutcome) -> bool {
    exists|p: &str| p@ == path && #[trigger] call_ensures(stat_path, (p,), st)
}

/// Runs `stat` on `path` through its function value, so that what came
/// back is known to be its outcome for `path`.
fn call_stat<F: Fn(&str) -> StatOutcome>(stat: &F, path: &str) -> (r: StatOutcome)
    requires
        call_requires(*stat, (path,)),
    ensures
        call_ensures(*stat, (path,), r),
{
    stat(path)
}

/// What the kernel says of the file at `path`.
fn stat_device(path: &str) -> (r: StatOutcome)
    ensures
        stat_gave(path@, r),
{
    call_stat(&stat_path, path)
}

/// `nix::sys::stat::major`, which computes
/// `((dev >> 32) & 0xffff_f000) | ((dev >> 8) & 0x0000_0fff)`.
#[verifier::external_body]
fn dev_major(dev: u64) -> (r: u64)
    ensures
        r == major_spec(dev),
{
    nix::sys::stat::major(dev)
}

/// `nix::sys::stat::minor`, which computes
/// `((dev >> 12) & 0xffff_ff00) | (dev & 0x0000_00ff)`.
#[verifier::external_body]
fn dev_minor(dev: u64) -> (r: u64)
    ensures
        r == minor_spec(dev),
{
    nix::sys::stat::minor(dev)
}

/// Turns what `stat` said of `path` into the `MAJOR:MINOR` that `io.max`
/// wants: refused when `stat` failed or the file is not a block device
/// (a character device such as /dev/null has a device number too, but
/// throttling it would silently do nothing). The number is that of the
/// device the node refers to, not of the filesystem it lives on.
pub fn check_device(path: &str, st: StatOutcome) -> (r: Result<String, CgroupError>)
    ensures
        match r {
            Ok(s) => device_check_spec(path@, st) == Ok::<Seq<char>, CgroupFault>(s@),
            Err(e) => device_check_spec(path@, st) == Err::<Seq<char>, CgroupFault>(e@),
        },
        match st {
            Err(errno) => r matches Err(CgroupError::StatFailed { path: p, errno: e }) && p@ == path@
                && e == errno,
            Ok((mode, rdev)) => if !is_block_device(mode) {
                r matches Err(CgroupError::NotBlockDevice(p)) && p@ == path@
            } else {
                r matches Ok(s) && s@ == device_number_text(rdev)
            },
        },
{
    match st {
        Err(errno) => {
            let e = CgroupError::StatFailed { path: owned(path), errno };
            assert(e@ == CgroupFault::StatFailed(path@, errno));
            Err(e)
        },
        Ok((mode, rdev)) => {
            if mode & S_IFMT != S_IFBLK {
                return Err(CgroupError::NotBlockDevice(owned(path)));
            }
            let mut s = decimal_string(dev_major(rdev));
            push_char(&mut s, ':');
            let minor = decimal_string(dev_minor(rdev));
            push_str(&mut s, minor.as_str());
            assert(s@ =~= device_number_text(rdev));
            Ok(s)
        },
    }
}

/// `MAJOR:MINOR` of the block device at `path`, e.g. /dev/sda gives "8:0":
/// `stat` is asked about `path`, and what it says is checked as
/// `check_device` does. Which outcome comes back depends on the disk.
pub fn resolve_device(path: &str) -> (r: Result<String, CgroupError>)
    ensures
        exists|st: StatOutcome|
            stat_gave(path@, st) && match r {
                Ok(s) => device_check_spec(path@, st) == Ok::<Seq<char>, CgroupFault>(s@),
                Err(e) => device_check_spec(path@, st) == Err::<Seq<char>, CgroupFault>(e@),
            },
{
    let st = stat_device(path);
    check_device(path, st)
}

/// The `io.max` line for a device and its limits, given what `stat` said
/// of the device: the checked `MAJOR:MINOR` followed by the limits, or
/// why the device was refused.
pub open spec fn line_for(device: Seq<char>, limits: Seq<(Seq<char>, u64)>, st: StatOutcome) -> Result<Seq<char>, CgroupFault> {
    match device_check_spec(device, st) {
        Ok(d) => Ok(d + render_limits(limits)),
        Err(e) => Err(e),
    }
}

/// The `io.max` line for one `--io-max` value: parsed, its device
/// resolved, and rendered as `MAJOR:MINOR KEY=VALUE...`.
pub fn io_max_line(spec: &str) -> (r: Result<String, CgroupError>)
    ensures
        match io_max_spec(spec@) {
            Err(e) => r matches Err(CgroupError::IoMax(e2)) && e2@ == e,
            Ok((device, limits)) => exists|st: StatOutcome|
                #[trigger] stat_gave(device, st) && match r {
                    Ok(line) => line_for(device, limits, st) == Ok::<Seq<char>, CgroupFault>(line@),
                    Err(e) => line_for(device, limits, st) == Err::<Seq<char>, CgroupFault>(e@),
                },
        },
{
    let parsed = match parse_io_max(spec) {
        Ok(m) => m,
        Err(e) => {
            return Err(CgroupError::IoMax(e));
        },
    };
    let st = stat_device(parsed.device.as_str());
    let device = match check_device(parsed.device.as_str(), st) {
        Ok(d) => d,
        Err(e) => {
            proof {
                let ghost dv = io_max_spec(spec@)->Ok_0.0;
                assert(dv == parsed.device@);
                assert(stat_gave(dv, st));
                assert(line_for(dv, io_max_spec(spec@)->Ok_0.1, st) == Err::<Seq<char>, CgroupFault>(e@));
            }
            return Err(e);
        },
    };
    let line = render_io_max(device.as_str(), &parsed.limits);
    proof {
        let ghost dv = io_max_spec(spec@)->Ok_0.0;
        assert(dv == parsed.device@);
        assert(stat_gave(dv, st));
        assert(line_for(dv, io_max_spec(spec@)->Ok_0.1, st) == Ok::<Seq<char>, CgroupFault>(line@));
    }
    Ok(line)
}

/// The controllers that a configuration needs, as (controller, flag), in
/// the order they are enabled. Both cpuset flags are served by the one
/// `cpuset` controller, which is asked for once.
pub open spec fn required_spec(c: CgroupConfig) -> Seq<(Seq<char>, Seq<char>)> {
    (if c.cpu_quota is Some {
        seq![("cpu"@, "--cpu"@)]
    } else {
        Seq::empty()
    }) + (if c.memory_max is Some {
        seq![("memory"@, "--memory"@)]
    } else {
        Seq::empty()
    }) + (if c.pids_limit is Some {
        seq![("pids"@, "--pids-limit"@)]
    } else {
        Seq::empty()
    }) + (if c.cpuset_cpus is Some || c.cpuset_mems is Some {
        seq![("cpuset"@, "--cpuset-cpus/--cpuset-mems"@)]
    } else {
        Seq::empty()
    }) + (if c.io_max@.len() > 0 {
        seq![("io"@, "--io-max"@)]
    } else {
        Seq::empty()
    })
}

/// A controller as (controller, flag).
pub open spec fn controller_view(c: RequiredController) -> (Seq<char>, Seq<char>) {
    (c.name@, c.flag@)
}

/// The controllers as (controller, flag) pairs.
pub open spec fn controllers_view(v: Seq<RequiredController>) -> Seq<(Seq<char>, Seq<char>)> {
    v.map_values(|c: RequiredController| controller_view(c))
}

/// What the controller files of the container's cgroup are written with,
/// as (file, value), in order: the CPU quota as `QUOTA 100000`, the memory
/// and task limits as numbers, and the cpusets as given.
pub open spec fn writes_spec(c: CgroupConfig) -> Seq<(Seq<char>, Seq<char>)> {
    (match c.cpu_quota {
        Some(q) => seq![("cpu.max"@, cpu_max_spec(q))],
        None => Seq::empty(),
    }) + (match c.memory_max {
        Some(m) => seq![("memory.max"@, decimal(m as nat))],
        None => Seq::empty(),
    }) + (match c.pids_limit {
        Some(p) => seq![("pids.max"@, decimal(p as nat))],
        None => Seq::empty(),
    }) + (match c.cpuset_cpus {
        Some(s) => seq![("cpuset.cpus"@, s@)],
        None => Seq::empty(),
    }) + (match c.cpuset_mems {
        Some(s) => seq![("cpuset.mems"@, s@)],
        None => Seq::empty(),
    })
}

/// A write as (file, value).
pub open spec fn write_view(w: ControllerWrite) -> (Seq<char>, Seq<char>) {
    (w.file@, w.value@)
}

/// The writes as (file, value) pairs.
pub open spec fn writes_view(v: Seq<ControllerWrite>) -> Seq<(Seq<char>, Seq<char>)> {
    v.map_values(|w: ControllerWrite| write_view(w))
}

/// `cpu.max` for a quota: the quota, a space, and the period.
pub open spec fn cpu_max_spec(quota: u64) -> Seq<char> {
    decimal(quota as nat) + seq![' '] + decimal(CPU_PERIOD as nat)
}

/// The `cpu.max` value for a quota in microseconds per 100000us period.
pub fn cpu_max_value(quota: u64) -> (s: String)
    ensures
        s@ == cpu_max_spec(quota),
{
    let mut s = decimal_string(quota);
    push_char(&mut s, ' ');
    let period = decimal_string(CPU_PERIOD);
    push_str(&mut s, period.as_str());
    s
}

/// The cgroup directory of the container whose process is `pid`.
pub open spec fn cgroup_path_spec(pid: u32) -> Seq<char> {
    CGROUP_ROOT@ + seq!['/'] + decimal(pid as nat)
}

/// `/sys/fs/cgroup/boxed/PID`.
pub fn cgroup_path(pid: u32) -> (s: String)
    ensures
        s@ == cgroup_path_spec(pid),
{
    let mut s = owned(CGROUP_ROOT);
    push_char(&mut s, '/');
    let n = decimal_string(pid as u64);
    push_str(&mut s, n.as_str());
    s
}

impl Cgroup {
    /// The cgroup of the container whose process is `pid`.
    pub fn for_pid(pid: u32) -> (cg: Cgroup)
        ensures
            cg.path@ == cgroup_path_spec(pid),
    {
        Cgroup { path: cgroup_path(pid) }
    }
}

fn push_controller(v: &mut Vec<RequiredController>, name: &'static str, flag: &'static str)
    ensures
        controllers_view(final(v)@) == controllers_view(old(v)@).push((name@, flag@)),
{
    let ghost before = controllers_view(v@);
    v.push(RequiredController { name, flag });
    assert(controllers_view(v@) =~= before.push((name@, flag@)));
}

fn push_write(v: &mut Vec<ControllerWrite>, file: &'static str, value: String)
    ensures
        writes_view(final(v)@) == writes_view(old(v)@).push((file@, value@)),
{
    let ghost before = writes_view(v@);
    let ghost val = value@;
    v.push(ControllerWrite { file, value });
    assert(writes_view(v@) =~= before.push((file@, val)));
}

impl CgroupConfig {
    /// No limit at all was asked for, so no cgroup is needed.
    pub fn is_noop(&self) -> (r: bool)
        ensures
            r == noop_spec(*self),
    {
        self.cpu_quota.is_none() && self.memory_max.is_none() && self.pids_limit.is_none()
            && self.cpuset_cpus.is_none() && self.cpuset_mems.is_none() && self.io_max.len() == 0
    }

    /// The controllers the configuration needs, in the order they are enabled.
    pub fn required_controllers(&self) -> (r: Vec<RequiredController>)
        ensures
            controllers_view(r@) == required_spec(*self),
    {
        let mut required: Vec<RequiredController> = Vec::new();
        let ghost e = Seq::<(Seq<char>, Seq<char>)>::empty();
        assert(controllers_view(required@) =~= e);
        if self.cpu_quota.is_some() {
            push_controller(&mut required, "cpu", "--cpu");
        }
        if self.memory_max.is_some() {
            push_controller(&mut required, "memory", "--memory");
        }
        if self.pids_limit.is_some() {
            push_controller(&mut required, "pids", "--pids-limit");
        }
        if self.cpuset_cpus.is_some() || self.cpuset_mems.is_some() {
            push_controller(&mut required, "cpuset", "--cpuset-cpus/--cpuset-mems");
        }
        if self.io_max.len() > 0 {
            push_controller(&mut required, "io", "--io-max");
        }
        assert(controllers_view(required@) =~= required_spec(*self));
        required
    }

    /// The controller files to write, other than `io.max`, in order.
    pub fn controller_writes(&self) -> (r: Vec<ControllerWrite>)
        ensures
            writes_view(r@) == writes_spec(*self),
    {
        let mut writes: Vec<ControllerWrite> = Vec::new();
        assert(writes_view(writes@) =~= Seq::<(Seq<char>, Seq<char>)>::empty());
        if let Some(quota) = self.cpu_quota {
            push_write(&mut writes, "cpu.max", cpu_max_value(quota));
        }
        if let Some(memory) = self.memory_max {
            push_write(&mut writes, "memory.max", decimal_string(memory));
        }
        if let Some(pids) = self.pids_limit {
            push_write(&mut writes, "pids.max", decimal_string(pids));
        }
        if let Some(cpus) = &self.cpuset_cpus {
            push_write(&mut writes, "cpuset.cpus", cpus.clone());
        }
        if let Some(mems) = &self.cpuset_mems {
            push_write(&mut writes, "cpuset.mems", mems.clone());
        }
        assert(writes_view(writes@) =~= writes_spec(*self));
        writes
    }

    /// Rejects malformed `--io-max` values up front, before any container
    /// is cloned: each value in turn is parsed, then `stat` is asked about
    /// its device. Succeeds when every value parses and names a block
    /// device; otherwise the first failure in that order is returned, and
    /// no device after it is looked at. The outcomes are what `stat` gave
    /// for each device it was asked about; which they are depends on the
    /// disk.
    pub fn validate(&self) -> (r: Result<(), CgroupError>)
        ensures
            self.io_max@.len() == 0 ==> r is Ok,
            exists|stats: Seq<StatOutcome>|
                stats.len() == self.io_max@.len() && (forall|i: int|
                    #![trigger stats[i]]
                    0 <= i < stats.len() && device_consulted(strings_view(self.io_max@), stats, i)
                        ==> stat_gave(io_max_spec(self.io_max@[i]@)->Ok_0.0, stats[i])) && match r {
                    Ok(()) => io_max_checks_spec(strings_view(self.io_max@), stats) == Ok::<
                        (),
                        CgroupFault,
                    >(()),
                    Err(e) => io_max_checks_spec(strings_view(self.io_max@), stats) == Err::<
                        (),
                        CgroupFault,
                    >(e@),
                },
    {
        let ghost sv = strings_view(self.io_max@);
        let mut stats: Vec<StatOutcome> = Vec::new();
        // Once an entry fails, no later device is looked at: the first
        // failure decides, so the outcomes held for the rest are never read.
        let mut failed = false;
        let mut i: usize = 0;
        assert(sv.take(0) =~= Seq::<Seq<char>>::empty());
        assert(stats@.take(0) =~= stats@);
        while i < self.io_max.len()
            invariant
                i <= self.io_max.len(),
                stats.len() == i,
                sv == strings_view(self.io_max@),
                failed <==> io_max_checks_spec(sv.take(i as int), stats@) is Err,
                forall|j: int|
                    #![trigger stats@[j]]
                    0 <= j < i && device_consulted(sv, stats@, j) ==> stat_gave(
                        io_max_spec(sv[j])->Ok_0.0,
                        stats@[j],
                    ),
            decreases self.io_max.len() - i,
        {
            let ghost before = stats@;
            assert(sv.take(i + 1).drop_last() =~= sv.take(i as int));
            assert(sv.take(i + 1).last() == self.io_max@[i as int]@);
            assert(sv[i as int] == self.io_max@[i as int]@);
            if failed {
                stats.push(Err(0));
            } else {
                match parse_io_max(self.io_max[i].as_str()) {
                    Ok(m) => {
                        let outcome = stat_device(m.device.as_str());
                        assert(m@.0 == m.device@);
                        if check_device(m.device.as_str(), outcome).is_err() {
                            failed = true;
                        }
                        stats.push(outcome);
                    },
                    Err(_) => {
                        failed = true;
                        stats.push(Err(0));
                    },
                }
            }
            proof {
                assert(stats@.drop_last() =~= before);
                assert(before.take(i as int) =~= before);
                assert forall|j: int| 0 <= j <= i implies #[trigger] stats@.take(j) =~= before.take(j) by {}
                assert forall|j: int|
                    0 <= j < i + 1 && device_consulted(sv, stats@, j) implies stat_gave(
                        io_max_spec(sv[j])->Ok_0.0,
                        #[trigger] stats@[j],
                    ) by {
                    assert(stats@.take(j) =~= before.take(j));
                    if j < i {
                        assert(stats@[j] == before[j]);
                        assert(device_consulted(sv, before, j));
                    }
                }
            }
            i = i + 1;
        }
        assert(sv.take(i as int) =~= sv);
        let r = check_io_max(&self.io_max, &stats);
        r
    }
}

/// What checking a list of `--io-max` values gives, entry by entry in
/// order, with `stats[i]` what `stat` said of the device of entry `i`:
/// the first entry that does not parse, or whose device is refused,
/// decides the error.
pub open spec fn io_max_checks_spec(specs: Seq<Seq<char>>, stats: Seq<StatOutcome>) -> Result<(), CgroupFault>
    decreases specs.len(),
{
    if specs.len() == 0 {
        Ok(())
    } else {
        match io_max_checks_spec(specs.drop_last(), stats.drop_last()) {
            Err(e) => Err(e),
            Ok(()) => entry_check(specs.last(), stats.last()),
        }
    }
}

/// What checking one `--io-max` value gives, with `st` what `stat` said of
/// its device: why it does not parse, why its device is refused, or `Ok`.
pub open spec fn entry_check(spec: Seq<char>, st: StatOutcome) -> Result<(), CgroupFault> {
    match io_max_spec(spec) {
        Err(e) => Err(CgroupFault::IoMax(e)),
        Ok(m) => match device_check_spec(m.0, st) {
            Err(e) => Err(e),
            Ok(_) => Ok(()),
        },
    }
}

/// The checks pass exactly when each value passes its own check: it parses
/// and `stat` found a block device for it. When they fail, the error is
/// that of the first value that fails, every value before it passing.
pub proof fn lemma_io_max_checks_ok_iff(specs: Seq<Seq<char>>, stats: Seq<StatOutcome>)
    requires
        specs.len() == stats.len(),
    ensures
        io_max_checks_spec(specs, stats) is Ok <==> forall|i: int|
            0 <= i < specs.len() ==> #[trigger] entry_check(specs[i], stats[i]) is Ok,
        io_max_checks_spec(specs, stats) is Err ==> exists|k: int|
            0 <= k < specs.len() && (forall|j: int| 0 <= j < k ==> #[trigger] entry_check(specs[j], stats[j]) is Ok)
                && io_max_checks_spec(specs, stats) == #[trigger] entry_check(specs[k], stats[k]),
    decreases specs.len(),
{
    if specs.len() > 0 {
        let (ps, pt) = (specs.drop_last(), stats.drop_last());
        lemma_io_max_checks_ok_iff(ps, pt);
        let n = specs.len() - 1;
        assert forall|i: int| 0 <= i < n implies ps[i] == specs[i] && pt[i] == stats[i] by {}
        if io_max_checks_spec(ps, pt) is Ok {
            assert(forall|i: int| 0 <= i < n ==> #[trigger] entry_check(specs[i], stats[i]) is Ok) by {
                assert forall|i: int| 0 <= i < n implies #[trigger] entry_check(specs[i], stats[i]) is Ok by {
                    assert(entry_check(ps[i], pt[i]) is Ok);
                }
            }
            if io_max_checks_spec(specs, stats) is Err {
                assert(entry_check(specs[n], stats[n]) == io_max_checks_spec(specs, stats));
            }
        } else {
            let k = choose|k: int|
                0 <= k < ps.len() && (forall|j: int| 0 <= j < k ==> #[trigger] entry_check(ps[j], pt[j]) is Ok)
                    && io_max_checks_spec(ps, pt) == #[trigger] entry_check(ps[k], pt[k]);
            assert(entry_check(specs[k], stats[k]) == entry_check(ps[k], pt[k]));
            assert forall|j: int| 0 <= j < k implies #[trigger] entry_check(specs[j], stats[j]) is Ok by {
                assert(entry_check(ps[j], pt[j]) is Ok);
            }
            assert(!(entry_check(specs[k], stats[k]) is Ok));
        }
    }
}

proof fn lemma_checks_fail_prefix(specs: Seq<Seq<char>>, stats: Seq<StatOutcome>, k: int)
    requires
        specs.len() == stats.len(),
        0 <= k <= specs.len(),
        io_max_checks_spec(specs.take(k), stats.take(k)) is Err,
    ensures
        io_max_checks_spec(specs, stats) == io_max_checks_spec(specs.take(k), stats.take(k)),
    decreases specs.len() - k,
{
    if k < specs.len() {
        assert(specs.take(k + 1).drop_last() =~= specs.take(k));
        assert(stats.take(k + 1).drop_last() =~= stats.take(k));
        lemma_checks_fail_prefix(specs, stats, k + 1);
    } else {
        assert(specs.take(k) =~= specs);
        assert(stats.take(k) =~= stats);
    }
}

/// Whether entry `i` of `specs` gets its device looked at: every entry
/// before it passes its checks, and it parses itself.
pub open spec fn device_consulted(specs: Seq<Seq<char>>, stats: Seq<StatOutcome>, i: int) -> bool {
    io_max_checks_spec(specs.take(i), stats.take(i)) is Ok && io_max_spec(specs[i]) is Ok
}

/// Checks `--io-max` values against what `stat` said of their devices:
/// exactly what `io_max_checks_spec` gives.
pub fn check_io_max(specs: &[String], stats: &[StatOutcome]) -> (r: Result<(), CgroupError>)
    requires
        specs.len() == stats.len(),
    ensures
        match r {
            Ok(()) => io_max_checks_spec(strings_view(specs@), stats@) == Ok::<(), CgroupFault>(()),
            Err(e) => io_max_checks_spec(strings_view(specs@), stats@) == Err::<(), CgroupFault>(e@),
        },
{
    let ghost sv = strings_view(specs@);
    let mut i: usize = 0;
    assert(sv.take(0) =~= Seq::<Seq<char>>::empty());
    while i < specs.len()
        invariant
            i <= specs.len(),
            specs.len() == stats.len(),
            sv == strings_view(specs@),
            io_max_checks_spec(sv.take(i as int), stats@.take(i as int)) == Ok::<(), CgroupFault>(()),
        decreases specs.len() - i,
    {
        assert(sv.take(i + 1).drop_last() =~= sv.take(i as int));
        assert(stats@.take(i + 1).drop_last() =~= stats@.take(i as int));
        assert(sv.take(i + 1).last() == specs@[i as int]@);
        assert(stats@.take(i + 1).last() == stats@[i as int]);
        let parsed = match parse_io_max(specs[i].as_str()) {
            Ok(m) => m,
            Err(e) => {
                proof {
                    lemma_checks_fail_prefix(sv, stats@, i as int + 1);
                }
                return Err(CgroupError::IoMax(e));
            },
        };
        match check_device(parsed.device.as_str(), stats[i]) {
            Ok(_) => {},
            Err(e) => {
                proof {
                    lemma_checks_fail_prefix(sv, stats@, i as int + 1);
                }
                return Err(e);
            },
        }
        i = i + 1;
    }
    assert(sv.take(i as int) =~= sv);
    assert(stats@.take(i as int) =~= stats@);
    Ok(())
}

/// The first required controller that is not available, if any.
pub open spec fn first_missing(
    required: Seq<(Seq<char>, Seq<char>)>,
    available: Seq<Seq<char>>,
) -> Option<int> {
    if exists|i: int| 0 <= i < required.len() && !available.contains(#[trigger] required[i].0) {
        Some(
            choose|i: int|
                0 <= i < required.len() && !available.contains(#[trigger] required[i].0) && forall|j: int|
                    0 <= j < i ==> available.contains(#[trigger] required[j].0),
        )
    } else {
        None
    }
}

/// The `cgroup.subtree_control` line enabling the controllers: `+NAME`
/// for each, separated by single spaces.
pub open spec fn subtree_control_spec(required: Seq<(Seq<char>, Seq<char>)>) -> Seq<char> {
    join(required.map_values(|c: (Seq<char>, Seq<char>)| seq!['+'] + c.0), seq![' '])
}

/// Whether `name` is in `available`.
fn is_available(available: &[String], name: &str) -> (r: bool)
    ensures
        r == strings_view(available@).contains(name@),
{
    let ghost av = strings_view(available@);
    let mut i: usize = 0;
    while i < available.len()
        invariant
            i <= available.len(),
            av == strings_view(available@),
            forall|j: int| 0 <= j < i ==> av[j] != name@,
        decreases available.len() - i,
    {
        if str_eq(available[i].as_str(), name) {
            assert(av[i as int] == name@);
            return true;
        }
        i = i + 1;
    }
    false
}

/// Checks that every required controller was delegated to the parent
/// cgroup, and builds the `cgroup.subtree_control` line that enables them.
/// The first controller (in order) that is missing is reported, with its
/// flag and the list of what is available.
pub fn validate_controllers(required: &[RequiredController], available: &[String]) -> (r: Result<
    String,
    CgroupError,
>)
    ensures
        match first_missing(controllers_view(required@), strings_view(available@)) {
            None => r matches Ok(line) && line@ == subtree_control_spec(controllers_view(required@)),
            Some(i) => r matches Err(CgroupError::ControllerUnavailable { flag, name, available: a })
                && flag@ == controllers_view(required@)[i].1 && name@ == controllers_view(required@)[i].0
                && strings_view(a@) == strings_view(available@),
        },
{
    let ghost req = controllers_view(required@);
    let ghost av = strings_view(available@);
    let mut line = String::new();
    let ghost pieces = req.map_values(|c: (Seq<char>, Seq<char>)| seq!['+'] + c.0);
    let mut i: usize = 0;
    while i < required.len()
        invariant
            i <= required.len(),
            req == controllers_view(required@),
            av == strings_view(available@),
            pieces == req.map_values(|c: (Seq<char>, Seq<char>)| seq!['+'] + c.0),
            forall|j: int| 0 <= j < i ==> av.contains(#[trigger] req[j].0),
            line@ == join(pieces.take(i as int), seq![' ']),
        decreases required.len() - i,
    {
        let c = &required[i];
        assert(req[i as int] == (c.name@, c.flag@));
        if !is_available(available, c.name) {
            proof {
                assert(!av.contains(req[i as int].0));
                let k = choose|k: int|
                    0 <= k < req.len() && !av.contains(#[trigger] req[k].0) && forall|j: int|
                        0 <= j < k ==> av.contains(#[trigger] req[j].0);
                if k < i {
                } else if k > i {
                    assert(av.contains(req[i as int].0));
                }
                assert(k == i);
            }
            return Err(
                CgroupError::ControllerUnavailable {
                    flag: owned(c.flag),
                    name: owned(c.name),
                    available: copy_strings(available),
                },
            );
        }
        let ghost before = line@;
        if i > 0 {
            push_char(&mut line, ' ');
        }
        push_char(&mut line, '+');
        push_str(&mut line, c.name);
        proof {
            assert(pieces.take(i + 1).drop_last() =~= pieces.take(i as int));
            assert(pieces[i as int] =~= seq!['+'] + c.name@);
            if i == 0 {
                assert(pieces.take(1) =~= seq![pieces[0]]);
                assert(line@ =~= pieces[0]);
            } else {
                assert(line@ =~= before + seq![' '] + pieces[i as int]);
            }
        }
        i = i + 1;
    }
    assert(pieces.take(i as int) =~= pieces);
    assert(!(exists|k: int| 0 <= k < req.len() && !av.contains(#[trigger] req[k].0)));
    Ok(line)
}

/// A configuration without limits needs no controller and no controller
/// file, and one with any limit needs at least one controller: whether a
/// cgroup is made at all follows `is_noop`.
pub proof fn lemma_noop_needs_nothing(c: CgroupConfig)
    ensures
        noop_spec(c) <==> required_spec(c).len() == 0,
        noop_spec(c) ==> writes_spec(c).len() == 0,
{
}

/// Each controller is asked for at most once, so the subtree line never
/// enables one twice (both cpuset flags share one `cpuset` entry).
pub proof fn lemma_required_distinct(c: CgroupConfig)
    ensures
        required_spec(c).map_values(|r: (Seq<char>, Seq<char>)| r.0).no_duplicates(),
{
    reveal_strlit("cpu");
    reveal_strlit("memory");
    reveal_strlit("pids");
    reveal_strlit("cpuset");
    reveal_strlit("io");
    let names = required_spec(c).map_values(|r: (Seq<char>, Seq<char>)| r.0);
    // The five names differ in length or in one of their first letters.
    assert forall|i: int, j: int| 0 <= i < names.len() && 0 <= j < names.len() && i != j implies names[i]
        != names[j] by {
        assert(names[i].len() != names[j].len() || names[i][0] != names[j][0] || names[i][1]
            != names[j][1] || names[i].len() > 4 && names[i][4] != names[j][4]) by {
            let r = required_spec(c);
            assert(names[i] == r[i].0 && names[j] == r[j].0);
        }
    }
}

/// Two containers never share a cgroup directory: different pids give
/// different paths.
pub proof fn lemma_cgroup_path_unique(a: u32, b: u32)
    requires
        a != b,
    ensures
        cgroup_path_spec(a) != cgroup_path_spec(b),
{
    let prefix = CGROUP_ROOT@ + seq!['/'];
    if cgroup_path_spec(a) == cgroup_path_spec(b) {
        assert(cgroup_path_spec(a).skip(prefix.len() as int) =~= decimal(a as nat));
        assert(cgroup_path_spec(b).skip(prefix.len() as int) =~= decimal(b as nat));
        crate::text::lemma_decimal_injective(a as nat, b as nat);
    }
}

/// Every `KEY=VALUE` of a limits text writes its value in canonical
/// decimal: no `+`, no leading zeros.
pub open spec fn canonical_values(limits: Seq<char>) -> bool {
    forall|k: int|
        0 <= k < split_all(limits, ',').len() ==> (split_once(#[trigger] split_all(limits, ',')[k], '=') matches Some(
            kv,
        ) && parse_u64_spec(kv.1) matches Some(n) && kv.1 == decimal(n as nat))
}

proof fn lemma_limits_each(pairs: Seq<Seq<char>>, ls: Seq<(Seq<char>, u64)>)
    requires
        limits_spec(pairs) == Ok::<Seq<(Seq<char>, u64)>, IoMaxFault>(ls),
    ensures
        ls.len() == pairs.len(),
        forall|k: int| 0 <= k < pairs.len() ==> limit_spec(#[trigger] pairs[k]) == Ok::<(Seq<char>, u64), IoMaxFault>(ls[k]),
    decreases pairs.len(),
{
    if pairs.len() > 0 {
        let done = limits_spec(pairs.drop_last())->Ok_0;
        lemma_limits_each(pairs.drop_last(), done);
        assert(ls == done.push(limit_spec(pairs.last())->Ok_0));
        assert forall|k: int| 0 <= k < pairs.len() implies limit_spec(#[trigger] pairs[k]) == Ok::<(Seq<char>, u64), IoMaxFault>(ls[k]) by {
            if k < pairs.len() - 1 {
                assert(pairs.drop_last()[k] == pairs[k]);
            }
        }
    }
}

/// A limit read from `p` whose value is written canonically is `p` again
/// once rendered.
proof fn lemma_limit_text(p: Seq<char>)
    requires
        limit_spec(p) is Ok,
        split_once(p, '=') matches Some(kv) && parse_u64_spec(kv.1) matches Some(n) && kv.1 == decimal(
            n as nat,
        ),
    ensures
        p == limit_spec(p)->Ok_0.0 + seq!['='] + decimal(limit_spec(p)->Ok_0.1 as nat),
{
    lemma_first_index(p, '=');
    let i = first_index(p, '=')->Some_0;
    assert(p =~= p.take(i) + seq!['='] + p.skip(i + 1));
}

proof fn lemma_render_joined(pairs: Seq<Seq<char>>, ls: Seq<(Seq<char>, u64)>)
    requires
        pairs.len() == ls.len(),
        pairs.len() > 0,
        forall|k: int| 0 <= k < pairs.len() ==> #[trigger] pairs[k] == ls[k].0 + seq!['='] + decimal(ls[k].1 as nat),
    ensures
        render_limits(ls) == seq![' '] + join(pairs, seq![' ']),
    decreases pairs.len(),
{
    if pairs.len() == 1 {
        assert(ls.drop_last() =~= Seq::<(Seq<char>, u64)>::empty());
        assert(render_limits(ls.drop_last()) == Seq::<char>::empty());
        assert(pairs[0] == ls[0].0 + seq!['='] + decimal(ls[0].1 as nat));
        assert(render_limits(ls) =~= seq![' '] + pairs[0]);
    } else {
        assert forall|k: int| 0 <= k < pairs.drop_last().len() implies #[trigger] pairs.drop_last()[k]
            == ls.drop_last()[k].0 + seq!['='] + decimal(ls.drop_last()[k].1 as nat) by {
            assert(pairs.drop_last()[k] == pairs[k]);
        }
        lemma_render_joined(pairs.drop_last(), ls.drop_last());
        assert(pairs.last() == ls.last().0 + seq!['='] + decimal(ls.last().1 as nat));
        assert(render_limits(ls) =~= seq![' '] + (join(pairs.drop_last(), seq![' ']) + seq![' '] + pairs.last()));
    }
}

/// The `io.max` line carries exactly the limits asked for, in the order
/// asked for: when every value is written canonically, rendering what
/// `parse_io_max` read gives the text after the `:` with each `,`
/// turned into a space, behind one space.
pub proof fn lemma_io_max_line_carries_limits(s: Seq<char>)
    requires
        io_max_spec(s) is Ok,
        canonical_values(split_once(s, ':').unwrap().1),
    ensures
        render_limits(io_max_spec(s)->Ok_0.1) == seq![' '] + replace_char(split_once(s, ':').unwrap().1, ',', ' '),
{
    let lim = split_once(s, ':').unwrap().1;
    let pairs = split_all(lim, ',');
    let ls = io_max_spec(s)->Ok_0.1;
    lemma_split_all_nonempty(lim, ',');
    lemma_limits_each(pairs, ls);
    assert forall|k: int| 0 <= k < pairs.len() implies #[trigger] pairs[k] == ls[k].0 + seq!['='] + decimal(ls[k].1 as nat) by {
        lemma_limit_text(pairs[k]);
    }
    lemma_render_joined(pairs, ls);
    lemma_split_replace(lim, ',', ' ');
}


/// The `cpu.max` value carries the requested quota unchanged: cut at its
/// space, the first word reads back as the quota and the second as the
/// 100000us period.
pub proof fn lemma_cpu_max_carries_quota(q: u64)
    ensures
        split_once(cpu_max_spec(q), ' ') matches Some((quota, period)) && parse_u64_spec(quota) == Some(q)
            && parse_u64_spec(period) == Some(100000u64),
{
    lemma_decimal_has_no(q as nat, ' ');
    lemma_split_once_at(decimal(q as nat), decimal(CPU_PERIOD as nat), ' ');
    lemma_decimal_round_trip(q);
    lemma_decimal_round_trip(CPU_PERIOD);
}

/// Each of the four `io.max` keys is accepted with any value, and any
/// other key (without `=` in it) is refused as unknown.
pub proof fn lemma_io_max_keys_accepted(k: Seq<char>, n: u64)
    requires
        !k.contains('='),
    ensures
        k == "rbps"@ || k == "wbps"@ || k == "riops"@ || k == "wiops"@ ==> limit_spec(
            k + seq!['='] + decimal(n as nat),
        ) == Ok::<(Seq<char>, u64), IoMaxFault>((k, n)),
        !(k == "rbps"@ || k == "wbps"@ || k == "riops"@ || k == "wiops"@) ==> limit_spec(
            k + seq!['='] + decimal(n as nat),
        ) == Err::<(Seq<char>, u64), IoMaxFault>(IoMaxFault::UnknownKey(k)),
{
    lemma_split_once_at(k, decimal(n as nat), '=');
    lemma_decimal_round_trip(n);
    let keys = io_max_keys();
    if k == "rbps"@ {
        assert(keys[0] == k);
    } else if k == "wbps"@ {
        assert(keys[1] == k);
    } else if k == "riops"@ {
        assert(keys[2] == k);
    } else if k == "wiops"@ {
        assert(keys[3] == k);
    } else {
        assert forall|i: int| 0 <= i < keys.len() implies keys[i] != k by {
            if i == 0 {
            } else if i == 1 {
            } else if i == 2 {
            } else {
            }
        }
    }
}

/// Each controller is asked for exactly when its own flag is given: `cpu`
/// for `--cpu`, `memory` for `--memory`, `pids` for `--pids-limit`,
/// `cpuset` for either cpuset flag, and `io` for a non-empty `--io-max`.
#[verifier::rlimit(40)]
pub proof fn lemma_controller_required_iff_flag(c: CgroupConfig)
    ensures
        required_spec(c).contains(("cpu"@, "--cpu"@)) <==> c.cpu_quota is Some,
        required_spec(c).contains(("memory"@, "--memory"@)) <==> c.memory_max is Some,
        required_spec(c).contains(("pids"@, "--pids-limit"@)) <==> c.pids_limit is Some,
        required_spec(c).contains(("cpuset"@, "--cpuset-cpus/--cpuset-mems"@)) <==> (c.cpuset_cpus is Some
            || c.cpuset_mems is Some),
        required_spec(c).contains(("io"@, "--io-max"@)) <==> c.io_max@.len() > 0,
{
    reveal_strlit("cpu");
    reveal_strlit("memory");
    reveal_strlit("pids");
    reveal_strlit("cpuset");
    reveal_strlit("io");
    let r = required_spec(c);
    // The five controller names tell themselves apart by length or first letter.
    assert("cpu"@.len() == 3 && "memory"@.len() == 6 && "pids"@.len() == 4 && "cpuset"@.len() == 6
        && "io"@.len() == 2);
    assert("memory"@[0] == 'm' && "cpuset"@[0] == 'c');
    assert forall|i: int| 0 <= i < r.len() implies {
        let n = (#[trigger] r[i]).0;
        &&& n == "cpu"@ ==> c.cpu_quota is Some
        &&& n == "memory"@ ==> c.memory_max is Some
        &&& n == "pids"@ ==> c.pids_limit is Some
        &&& n == "cpuset"@ ==> (c.cpuset_cpus is Some || c.cpuset_mems is Some)
        &&& n == "io"@ ==> c.io_max@.len() > 0
    } by {}
    if c.cpu_quota is Some {
        assert(r[0] == ("cpu"@, "--cpu"@));
    }
    let s1 = if c.cpu_quota is Some { 1int } else { 0int };
    if c.memory_max is Some {
        assert(r[s1] == ("memory"@, "--memory"@));
    }
    let s2 = s1 + if c.memory_max is Some { 1int } else { 0int };
    if c.pids_limit is Some {
        assert(r[s2] == ("pids"@, "--pids-limit"@));
    }
    let s3 = s2 + if c.pids_limit is Some { 1int } else { 0int };
    if c.cpuset_cpus is Some || c.cpuset_mems is Some {
        assert(r[s3] == ("cpuset"@, "--cpuset-cpus/--cpuset-mems"@));
    }
    let s4 = s3 + if c.cpuset_cpus is Some || c.cpuset_mems is Some { 1int } else { 0int };
    if c.io_max@.len() > 0 {
        assert(r[s4] == ("io"@, "--io-max"@));
    }
}

} // verus!
