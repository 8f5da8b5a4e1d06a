//! OCI seccomp profiles: resolving their names into numbers, and compiling
//! the result into the BPF filter that the kernel runs on every system call.
use vstd::prelude::*;

use crate::bpf::{
    jump, run, stmt, verdict, SockFilter, OFFSET_ARCH, OFFSET_NR, OP_JUMP_EQ, OP_JUMP_GE,
    OP_LOAD_WORD, OP_RETURN,
};
use crate::text::{copy_strings, str_eq, strings_view};

verus! {

/// Let the system call run.
pub const SECCOMP_RET_ALLOW: u32 = 0x7fff0000;

/// Fail the system call with an errno.
pub const SECCOMP_RET_ERRNO: u32 = 0x00050000;

/// Kill the calling thread.
pub const SECCOMP_RET_KILL: u32 = 0;

/// Kill the whole process.
pub const SECCOMP_RET_KILL_PROCESS: u32 = 0x80000000;

/// The audit architecture of x86_64 (`EM_X86_64 | __AUDIT_ARCH_64BIT | __AUDIT_ARCH_LE`).
pub const AUDIT_ARCH_X86_64: u32 = 0xC000003E;

/// The bit that marks a system call made through the x32 ABI on x86_64
/// (`__X32_SYSCALL_BIT`). Such calls carry the x86_64 audit architecture but
/// other numbers, so a filter that compares numbers alone must refuse them.
pub const X32_SYSCALL_BIT: u32 = 0x40000000;

/// One argument condition of a syscall rule. Conditions are not supported:
/// a rule that has any is refused.
pub struct ArgRule {
    pub index: u32,
    pub value: u64,
    pub value_two: Option<u64>,
    pub op: String,
}

/// One entry of a profile's `syscalls` list.
pub struct SyscallRule {
    pub names: Vec<String>,
    pub action: String,
    pub args: Vec<ArgRule>,
}

/// An OCI seccomp profile as read from its JSON file.
pub struct SeccompProfile {
    pub default_action: String,
    pub architectures: Vec<String>,
    pub syscalls: Vec<SyscallRule>,
}

/// A rule with its names turned into system call numbers and its action
/// into a verdict.
pub struct ResolveRule {
    pub numbers: Vec<i64>,
    pub action: u32,
}

/// A profile ready to be compiled: rules in the profile's order, and the
/// verdict for every call that no rule names.
pub struct ResolvedProfile {
    pub rules: Vec<ResolveRule>,
    pub default_action: u32,
}

/// A rule as numbers and verdict.
pub open spec fn rule_model(r: ResolveRule) -> (Seq<i64>, u32) {
    (r.numbers@, r.action)
}

impl View for ResolvedProfile {
    type V = (Seq<(Seq<i64>, u32)>, u32);

    open spec fn view(&self) -> (Seq<(Seq<i64>, u32)>, u32) {
        (self.rules@.map_values(|r: ResolveRule| rule_model(r)), self.default_action)
    }
}

/// Why a profile was refused, over character sequences.
pub enum SeccompFault {
    UnsupportedArchitecture,
    EmptyNames,
    ArgConditions(Seq<Seq<char>>),
    UnknownAction(Seq<char>),
    UnknownSyscall(Seq<char>),
    UnknownDefaultAction(Seq<char>),
}

/// Why a profile was refused.
pub enum SeccompError {
    /// `architectures` is not empty and does not name `SCMP_ARCH_X86_64`.
    UnsupportedArchitecture,
    /// A rule names no system call.
    EmptyNames,
    /// A rule has argument conditions; it carries the rule's names.
    ArgConditions(Vec<String>),
    /// A rule's action is not one this runtime knows.
    UnknownAction(String),
    /// A rule names a system call this runtime does not know.
    UnknownSyscall(String),
    /// The default action is not one this runtime knows.
    UnknownDefaultAction(String),
}

impl View for SeccompError {
    type V = SeccompFault;

    open spec fn view(&self) -> SeccompFault {
        match self {
            SeccompError::UnsupportedArchitecture => SeccompFault::UnsupportedArchitecture,
            SeccompError::EmptyNames => SeccompFault::EmptyNames,
            SeccompError::ArgConditions(names) => SeccompFault::ArgConditions(strings_view(names@)),
            SeccompError::UnknownAction(a) => SeccompFault::UnknownAction(a@),
            SeccompError::UnknownSyscall(n) => SeccompFault::UnknownSyscall(n@),
            SeccompError::UnknownDefaultAction(a) => SeccompFault::UnknownDefaultAction(a@),
        }
    }
}

/// Distinguishes names by their length and their first, middle and last
/// characters: two names with different fingerprints differ.
pub open spec fn fingerprint(s: Seq<char>) -> (nat, char, char, char) {
    (s.len(), s[0], s[(s.len() / 2) as int], s[s.len() - 1])
}

/// How many OCI actions this runtime knows.
pub const ACTION_COUNT: usize = 4;

/// Row `i` of the action table: an OCI action name and the verdict it
/// stands for.
pub open spec fn action_row(i: int) -> (Seq<char>, u32) {
    if i == 0 {
        ("SCMP_ACT_ALLOW"@, SECCOMP_RET_ALLOW)
    } else if i == 1 {
        ("SCMP_ACT_ERRNO"@, SECCOMP_RET_ERRNO)
    } else if i == 2 {
        ("SCMP_ACT_KILL"@, SECCOMP_RET_KILL)
    } else if i == 3 {
        ("SCMP_ACT_KILL_PROCESS"@, SECCOMP_RET_KILL_PROCESS)
    } else {
        (Seq::empty(), 0)
    }
}

/// The verdict an OCI action name stands for: the one of its row in the
/// action table.
pub open spec fn action_code(name: Seq<char>) -> Option<u32> {
    if exists|i: int| 0 <= i < ACTION_COUNT && #[trigger] action_row(i).0 == name {
        Some(action_row(choose|i: int| 0 <= i < ACTION_COUNT && #[trigger] action_row(i).0 == name).1)
    } else {
        None
    }
}

/// How many system calls a profile may name.
pub const SYSCALL_COUNT: usize = 64;

/// Row `i` of the system call table: a name a profile may use and its
/// x86_64 number. The first rows are the calls the default filter kills,
/// in the order of `dangerous_syscalls`.
pub open spec fn syscall_row(i: int) -> (Seq<char>, i64) {
    if i == 0 {
        ("reboot"@, 169)
    } else if i == 1 {
        ("acct"@, 163)
    } else if i == 2 {
        ("swapon"@, 167)
    } else if i == 3 {
        ("swapoff"@, 168)
    } else if i == 4 {
        ("mount"@, 165)
    } else if i == 5 {
        ("umount2"@, 166)
    } else if i == 6 {
        ("pivot_root"@, 155)
    } else if i == 7 {
        ("open_by_handle_at"@, 304)
    } else if i == 8 {
        ("sysfs"@, 139)
    } else if i == 9 {
        ("init_module"@, 175)
    } else if i == 10 {
        ("finit_module"@, 313)
    } else if i == 11 {
        ("delete_module"@, 176)
    } else if i == 12 {
        ("kexec_load"@, 246)
    } else if i == 13 {
        ("kexec_file_load"@, 320)
    } else if i == 14 {
        ("ptrace"@, 101)
    } else if i == 15 {
        ("process_vm_readv"@, 310)
    } else if i == 16 {
        ("process_vm_writev"@, 311)
    } else if i == 17 {
        ("kcmp"@, 312)
    } else if i == 18 {
        ("iopl"@, 172)
    } else if i == 19 {
        ("ioperm"@, 173)
    } else if i == 20 {
        ("settimeofday"@, 164)
    } else if i == 21 {
        ("clock_settime"@, 227)
    } else if i == 22 {
        ("clock_adjtime"@, 305)
    } else if i == 23 {
        ("adjtimex"@, 159)
    } else if i == 24 {
        ("add_key"@, 248)
    } else if i == 25 {
        ("request_key"@, 249)
    } else if i == 26 {
        ("keyctl"@, 250)
    } else if i == 27 {
        ("bpf"@, 321)
    } else if i == 28 {
        ("perf_event_open"@, 298)
    } else if i == 29 {
        ("io_uring_setup"@, 425)
    } else if i == 30 {
        ("io_uring_enter"@, 426)
    } else if i == 31 {
        ("io_uring_register"@, 427)
    } else if i == 32 {
        ("mbind"@, 237)
    } else if i == 33 {
        ("set_mempolicy"@, 238)
    } else if i == 34 {
        ("get_mempolicy"@, 239)
    } else if i == 35 {
        ("move_pages"@, 279)
    } else if i == 36 {
        ("setns"@, 308)
    } else if i == 37 {
        ("quotactl"@, 179)
    } else if i == 38 {
        ("nfsservctl"@, 180)
    } else if i == 39 {
        ("lookup_dcookie"@, 212)
    } else if i == 40 {
        ("uselib"@, 134)
    } else if i == 41 {
        ("ustat"@, 136)
    } else if i == 42 {
        ("userfaultfd"@, 323)
    } else if i == 43 {
        ("_sysctl"@, 156)
    } else if i == 44 {
        ("personality"@, 135)
    } else if i == 45 {
        ("execve"@, 59)
    } else if i == 46 {
        ("read"@, 0)
    } else if i == 47 {
        ("write"@, 1)
    } else if i == 48 {
        ("close"@, 3)
    } else if i == 49 {
        ("openat"@, 257)
    } else if i == 50 {
        ("fstat"@, 5)
    } else if i == 51 {
        ("brk"@, 12)
    } else if i == 52 {
        ("mmap"@, 9)
    } else if i == 53 {
        ("mprotect"@, 10)
    } else if i == 54 {
        ("munmap"@, 11)
    } else if i == 55 {
        ("access"@, 21)
    } else if i == 56 {
        ("arch_prctl"@, 158)
    } else if i == 57 {
        ("set_tid_address"@, 218)
    } else if i == 58 {
        ("set_robust_list"@, 273)
    } else if i == 59 {
        ("rseq"@, 334)
    } else if i == 60 {
        ("getrandom"@, 318)
    } else if i == 61 {
        ("exit_group"@, 231)
    } else if i == 62 {
        ("prlimit64"@, 302)
    } else if i == 63 {
        ("pread64"@, 17)
    } else {
        (Seq::empty(), -1i64)
    }
}

/// The x86_64 number of a system call name: the one of its row in the
/// system call table.
pub open spec fn syscall_number_spec(name: Seq<char>) -> Option<i64> {
    if exists|i: int| 0 <= i < SYSCALL_COUNT && #[trigger] syscall_row(i).0 == name {
        Some(syscall_row(choose|i: int| 0 <= i < SYSCALL_COUNT && #[trigger] syscall_row(i).0 == name).1)
    } else {
        None
    }
}

/// No two rows of the action table share a name.
proof fn lemma_action_names_distinct()
    ensures
        forall|i: int, j: int|
            0 <= i < j < ACTION_COUNT ==> #[trigger] action_row(i).0 != #[trigger] action_row(j).0,
{
    assert forall|i: int, j: int| 0 <= i < j < ACTION_COUNT implies fingerprint(action_row(i).0) != fingerprint(
        action_row(j).0,
    ) by {
        reveal_strlit("SCMP_ACT_ALLOW");
        reveal_strlit("SCMP_ACT_ERRNO");
        reveal_strlit("SCMP_ACT_KILL");
        reveal_strlit("SCMP_ACT_KILL_PROCESS");
    }
}

/// No two rows of the system call table share a name: their fingerprints
/// already differ.
#[verifier::rlimit(100)]
#[verifier::spinoff_prover]
proof fn lemma_syscall_names_distinct()
    ensures
        forall|i: int, j: int|
            0 <= i < j < SYSCALL_COUNT ==> #[trigger] syscall_row(i).0 != #[trigger] syscall_row(j).0,
{
    assert forall|i: int, j: int| 0 <= i < j < SYSCALL_COUNT implies fingerprint(syscall_row(i).0) != fingerprint(
        syscall_row(j).0,
    ) by {
        reveal_strlit("reboot");
        reveal_strlit("acct");
        reveal_strlit("swapon");
        reveal_strlit("swapoff");
        reveal_strlit("mount");
        reveal_strlit("umount2");
        reveal_strlit("pivot_root");
        reveal_strlit("open_by_handle_at");
        reveal_strlit("sysfs");
        reveal_strlit("init_module");
        reveal_strlit("finit_module");
        reveal_strlit("delete_module");
        reveal_strlit("kexec_load");
        reveal_strlit("kexec_file_load");
        reveal_strlit("ptrace");
        reveal_strlit("process_vm_readv");
        reveal_strlit("process_vm_writev");
        reveal_strlit("kcmp");
        reveal_strlit("iopl");
        reveal_strlit("ioperm");
        reveal_strlit("settimeofday");
        reveal_strlit("clock_settime");
        reveal_strlit("clock_adjtime");
        reveal_strlit("adjtimex");
        reveal_strlit("add_key");
        reveal_strlit("request_key");
        reveal_strlit("keyctl");
        reveal_strlit("bpf");
        reveal_strlit("perf_event_open");
        reveal_strlit("io_uring_setup");
        reveal_strlit("io_uring_enter");
        reveal_strlit("io_uring_register");
        reveal_strlit("mbind");
        reveal_strlit("set_mempolicy");
        reveal_strlit("get_mempolicy");
        reveal_strlit("move_pages");
        reveal_strlit("setns");
        reveal_strlit("quotactl");
        reveal_strlit("nfsservctl");
        reveal_strlit("lookup_dcookie");
        reveal_strlit("uselib");
        reveal_strlit("ustat");
        reveal_strlit("userfaultfd");
        reveal_strlit("_sysctl");
        reveal_strlit("personality");
        reveal_strlit("execve");
        reveal_strlit("read");
        reveal_strlit("write");
        reveal_strlit("close");
        reveal_strlit("openat");
        reveal_strlit("fstat");
        reveal_strlit("brk");
        reveal_strlit("mmap");
        reveal_strlit("mprotect");
        reveal_strlit("munmap");
        reveal_strlit("access");
        reveal_strlit("arch_prctl");
        reveal_strlit("set_tid_address");
        reveal_strlit("set_robust_list");
        reveal_strlit("rseq");
        reveal_strlit("getrandom");
        reveal_strlit("exit_group");
        reveal_strlit("prlimit64");
        reveal_strlit("pread64");
    }
}

/// No two rows of the system call table share a number.
#[verifier::rlimit(100)]
#[verifier::spinoff_prover]
proof fn lemma_syscall_numbers_distinct()
    ensures
        forall|i: int, j: int|
            0 <= i < j < SYSCALL_COUNT ==> #[trigger] syscall_row(i).1 != #[trigger] syscall_row(j).1,
{
}

/// The system calls that the default filter kills: rebooting, mounting,
/// module and kernel loading, tracing other processes, raw I/O, setting
/// the clock, the keyring, eBPF/perf/io_uring, NUMA policy, `setns`, and
/// obsolete privilege-adjacent calls.
pub open spec fn dangerous_syscalls() -> Seq<i64> {
    seq![169, 163, 167, 168, 165, 166, 155, 304, 139, 175, 313, 176, 246, 320, 101, 310, 311, 312, 172, 173, 164, 227, 305, 159, 248, 249, 250, 321, 298, 425, 426, 427, 237, 238, 239, 279, 308, 179, 180, 212, 134, 136, 323, 156, 135]
}

/// A name of the system call table has the number of its own row.
proof fn lemma_syscall_row_number(k: int)
    requires
        0 <= k < SYSCALL_COUNT,
    ensures
        syscall_number_spec(syscall_row(k).0) == Some(syscall_row(k).1),
{
    lemma_syscall_names_distinct();
    let name = syscall_row(k).0;
    assert(exists|i: int| 0 <= i < SYSCALL_COUNT && #[trigger] syscall_row(i).0 == name);
    let c = choose|i: int| 0 <= i < SYSCALL_COUNT && #[trigger] syscall_row(i).0 == name;
    if c < k {
        assert(syscall_row(c).0 != syscall_row(k).0);
    } else if c > k {
        assert(syscall_row(k).0 != syscall_row(c).0);
    }
}

/// No two system call names that a profile may use share a number.
pub proof fn lemma_syscall_numbers_injective(a: Seq<char>, b: Seq<char>)
    requires
        a != b,
        syscall_number_spec(a) is Some,
        syscall_number_spec(b) is Some,
    ensures
        syscall_number_spec(a)->Some_0 != syscall_number_spec(b)->Some_0,
{
    lemma_syscall_numbers_distinct();
    let ia = choose|i: int| 0 <= i < SYSCALL_COUNT && #[trigger] syscall_row(i).0 == a;
    let ib = choose|i: int| 0 <= i < SYSCALL_COUNT && #[trigger] syscall_row(i).0 == b;
    assert(ia != ib);
    if ia < ib {
        assert(syscall_row(ia).1 != syscall_row(ib).1);
    } else {
        assert(syscall_row(ib).1 != syscall_row(ia).1);
    }
}

/// Every call that the default filter kills has a name that a profile
/// may use, so a profile can name each of them.
pub proof fn lemma_deny_list_named()
    ensures
        forall|k: int|
            0 <= k < dangerous_syscalls().len() ==> exists|name: Seq<char>|
                syscall_number_spec(name) == Some(#[trigger] dangerous_syscalls()[k]),
{
    assert forall|k: int| 0 <= k < dangerous_syscalls().len() implies exists|name: Seq<char>|
        syscall_number_spec(name) == Some(#[trigger] dangerous_syscalls()[k]) by {
        assert(dangerous_syscalls()[k] == syscall_row(k).1);
        lemma_syscall_row_number(k);
        assert(syscall_number_spec(syscall_row(k).0) == Some(dangerous_syscalls()[k]));
    }
}

/// The calls that the default filter kills, by name: rebooting, accounting,
/// swap, mounting, module and kernel loading, tracing other processes,
/// raw I/O, setting the clock, the keyring, eBPF/perf/io_uring, NUMA
/// policy, `setns`, and obsolete privilege-adjacent calls.
pub open spec fn denied_call_names() -> Seq<Seq<char>> {
    seq!["reboot"@, "acct"@, "swapon"@, "swapoff"@, "mount"@, "umount2"@, "pivot_root"@, "open_by_handle_at"@, "sysfs"@, "init_module"@, "finit_module"@, "delete_module"@, "kexec_load"@, "kexec_file_load"@, "ptrace"@, "process_vm_readv"@, "process_vm_writev"@, "kcmp"@, "iopl"@, "ioperm"@, "settimeofday"@, "clock_settime"@, "clock_adjtime"@, "adjtimex"@, "add_key"@, "request_key"@, "keyctl"@, "bpf"@, "perf_event_open"@, "io_uring_setup"@, "io_uring_enter"@, "io_uring_register"@, "mbind"@, "set_mempolicy"@, "get_mempolicy"@, "move_pages"@, "setns"@, "quotactl"@, "nfsservctl"@, "lookup_dcookie"@, "uselib"@, "ustat"@, "userfaultfd"@, "_sysctl"@, "personality"@]
}

/// Ordinary calls that a profile may name and that the default filter
/// lets through.
pub open spec fn ordinary_call_names() -> Seq<Seq<char>> {
    seq!["execve"@, "read"@, "write"@, "close"@, "openat"@, "fstat"@, "brk"@, "mmap"@, "mprotect"@, "munmap"@, "access"@, "arch_prctl"@, "set_tid_address"@, "set_robust_list"@, "rseq"@, "getrandom"@, "exit_group"@, "prlimit64"@, "pread64"@]
}

/// With no profile, on x86_64, every call of the deny set is killed and
/// every ordinary call is allowed, whatever order the tables are kept in:
/// the deny list names each denied call's number and no ordinary call's.
#[verifier::rlimit(40)]
pub proof fn lemma_default_filter_by_name()
    ensures
        forall|k: int|
            0 <= k < denied_call_names().len() ==> #[trigger] syscall_number_spec(denied_call_names()[k]) is Some
                && names_call(dangerous_syscalls(), syscall_number_spec(denied_call_names()[k])->Some_0 as u32)
                && profile_decision(
                None,
                AUDIT_ARCH_X86_64,
                syscall_number_spec(denied_call_names()[k])->Some_0 as u32,
            ) == SECCOMP_RET_KILL_PROCESS,
        forall|k: int|
            0 <= k < ordinary_call_names().len() ==> #[trigger] syscall_number_spec(ordinary_call_names()[k])
                is Some && !names_call(
                dangerous_syscalls(),
                syscall_number_spec(ordinary_call_names()[k])->Some_0 as u32,
            ) && profile_decision(
                None,
                AUDIT_ARCH_X86_64,
                syscall_number_spec(ordinary_call_names()[k])->Some_0 as u32,
            ) == SECCOMP_RET_ALLOW,
{
    lemma_syscall_numbers_distinct();
    assert forall|k: int| 0 <= k < denied_call_names().len() implies #[trigger] syscall_number_spec(
        denied_call_names()[k],
    ) is Some && names_call(dangerous_syscalls(), syscall_number_spec(denied_call_names()[k])->Some_0 as u32)
        && profile_decision(
        None,
        AUDIT_ARCH_X86_64,
        syscall_number_spec(denied_call_names()[k])->Some_0 as u32,
    ) == SECCOMP_RET_KILL_PROCESS by {
        assert(denied_call_names()[k] == syscall_row(k).0);
        assert(dangerous_syscalls()[k] == syscall_row(k).1);
        assert(0 <= syscall_row(k).1 < 1000);
        lemma_syscall_row_number(k);
        assert(dangerous_syscalls()[k] as u32 == syscall_row(k).1 as u32);
    }
    assert forall|k: int| 0 <= k < ordinary_call_names().len() implies #[trigger] syscall_number_spec(
        ordinary_call_names()[k],
    ) is Some && !names_call(
        dangerous_syscalls(),
        syscall_number_spec(ordinary_call_names()[k])->Some_0 as u32,
    ) && profile_decision(
        None,
        AUDIT_ARCH_X86_64,
        syscall_number_spec(ordinary_call_names()[k])->Some_0 as u32,
    ) == SECCOMP_RET_ALLOW by {
        let r = k + 45;
        assert(ordinary_call_names()[k] == syscall_row(r).0);
        assert(0 <= syscall_row(r).1 < 1000);
        lemma_syscall_row_number(r);
        assert forall|j: int| 0 <= j < dangerous_syscalls().len() implies #[trigger] dangerous_syscalls()[j] as u32
            != syscall_row(r).1 as u32 by {
            assert(dangerous_syscalls()[j] == syscall_row(j).1);
            assert(0 <= syscall_row(j).1 < 1000);
            assert(syscall_row(j).1 != syscall_row(r).1);
        }
    }
}

/// The numbers of `names` in order, or the first name that has none.
pub open spec fn numbers_spec(names: Seq<Seq<char>>) -> Result<Seq<i64>, Seq<char>>
    decreases names.len(),
{
    if names.len() == 0 {
        Ok(Seq::<i64>::empty())
    } else {
        match numbers_spec(names.drop_last()) {
            Err(n) => Err(n),
            Ok(ns) => match syscall_number_spec(names.last()) {
                Some(k) => Ok(ns.push(k)),
                None => Err(names.last()),
            },
        }
    }
}

/// What resolving one rule gives.
pub open spec fn rule_spec(r: SyscallRule) -> Result<(Seq<i64>, u32), SeccompFault> {
    if r.names@.len() == 0 {
        Err(SeccompFault::EmptyNames)
    } else if r.args@.len() > 0 {
        Err(SeccompFault::ArgConditions(strings_view(r.names@)))
    } else {
        match action_code(r.action@) {
            None => Err(SeccompFault::UnknownAction(r.action@)),
            Some(a) => match numbers_spec(strings_view(r.names@)) {
                Err(n) => Err(SeccompFault::UnknownSyscall(n)),
                Ok(ns) => Ok((ns, a)),
            },
        }
    }
}

/// What resolving a list of rules gives: every rule resolved, or the
/// refusal of the first rule that fails.
pub open spec fn rules_spec(rs: Seq<SyscallRule>) -> Result<Seq<(Seq<i64>, u32)>, SeccompFault>
    decreases rs.len(),
{
    if rs.len() == 0 {
        Ok(Seq::<(Seq<i64>, u32)>::empty())
    } else {
        match rules_spec(rs.drop_last()) {
            Err(e) => Err(e),
            Ok(done) => match rule_spec(rs.last()) {
                Err(e) => Err(e),
                Ok(r) => Ok(done.push(r)),
            },
        }
    }
}

/// What resolving a whole profile gives: the architecture check first,
/// then the rules in order, then the default action.
pub open spec fn profile_spec(p: SeccompProfile) -> Result<(Seq<(Seq<i64>, u32)>, u32), SeccompFault> {
    let archs = strings_view(p.architectures@);
    if archs.len() > 0 && !archs.contains("SCMP_ARCH_X86_64"@) {
        Err(SeccompFault::UnsupportedArchitecture)
    } else {
        match rules_spec(p.syscalls@) {
            Err(e) => Err(e),
            Ok(rules) => match action_code(p.default_action@) {
                None => Err(SeccompFault::UnknownDefaultAction(p.default_action@)),
                Some(d) => Ok((rules, d)),
            },
        }
    }
}

/// The action table, row by row.
fn action_table() -> (t: Vec<(&'static str, u32)>)
    ensures
        t.len() == ACTION_COUNT,
        forall|i: int| 0 <= i < ACTION_COUNT ==> (#[trigger] t@[i].0@, t@[i].1) == action_row(i),
{
    let t = vec![
        ("SCMP_ACT_ALLOW", SECCOMP_RET_ALLOW),
        ("SCMP_ACT_ERRNO", SECCOMP_RET_ERRNO),
        ("SCMP_ACT_KILL", SECCOMP_RET_KILL),
        ("SCMP_ACT_KILL_PROCESS", SECCOMP_RET_KILL_PROCESS),
    ];
    assert forall|i: int| 0 <= i < ACTION_COUNT implies (#[trigger] t@[i].0@, t@[i].1) == action_row(i) by {}
    t
}

/// The verdict for an OCI action name, if this runtime knows it.
pub fn resolve_action(action: &str) -> (r: Option<u32>)
    ensures
        r == action_code(action@),
{
    let t = action_table();
    let mut i: usize = 0;
    while i < t.len()
        invariant
            t.len() == ACTION_COUNT,
            forall|k: int| 0 <= k < ACTION_COUNT ==> (#[trigger] t@[k].0@, t@[k].1) == action_row(k),
            i <= t.len(),
            forall|k: int| 0 <= k < i ==> #[trigger] action_row(k).0 != action@,
        decreases t.len() - i,
    {
        let (name, code) = t[i];
        if str_eq(action, name) {
            proof {
                assert(action_row(i as int).0 == action@);
                lemma_action_names_distinct();
                let c = choose|c: int| 0 <= c < ACTION_COUNT && #[trigger] action_row(c).0 == action@;
                if c < i {
                } else if c > i {
                    assert(action_row(i as int).0 != action_row(c).0);
                }
            }
            return Some(code);
        }
        i = i + 1;
    }
    None
}

/// The system call table, row by row.
#[verifier::rlimit(50)]
fn syscall_table() -> (t: Vec<(&'static str, i64)>)
    ensures
        t.len() == SYSCALL_COUNT,
        forall|i: int| 0 <= i < SYSCALL_COUNT ==> (#[trigger] t@[i].0@, t@[i].1) == syscall_row(i),
{
    let t = vec![
        ("reboot", 169),
        ("acct", 163),
        ("swapon", 167),
        ("swapoff", 168),
        ("mount", 165),
        ("umount2", 166),
        ("pivot_root", 155),
        ("open_by_handle_at", 304),
        ("sysfs", 139),
        ("init_module", 175),
        ("finit_module", 313),
        ("delete_module", 176),
        ("kexec_load", 246),
        ("kexec_file_load", 320),
        ("ptrace", 101),
        ("process_vm_readv", 310),
        ("process_vm_writev", 311),
        ("kcmp", 312),
        ("iopl", 172),
        ("ioperm", 173),
        ("settimeofday", 164),
        ("clock_settime", 227),
        ("clock_adjtime", 305),
        ("adjtimex", 159),
        ("add_key", 248),
        ("request_key", 249),
        ("keyctl", 250),
        ("bpf", 321),
        ("perf_event_open", 298),
        ("io_uring_setup", 425),
        ("io_uring_enter", 426),
        ("io_uring_register", 427),
        ("mbind", 237),
        ("set_mempolicy", 238),
        ("get_mempolicy", 239),
        ("move_pages", 279),
        ("setns", 308),
        ("quotactl", 179),
        ("nfsservctl", 180),
        ("lookup_dcookie", 212),
        ("uselib", 134),
        ("ustat", 136),
        ("userfaultfd", 323),
        ("_sysctl", 156),
        ("personality", 135),
        ("execve", 59),
        ("read", 0),
        ("write", 1),
        ("close", 3),
        ("openat", 257),
        ("fstat", 5),
        ("brk", 12),
        ("mmap", 9),
        ("mprotect", 10),
        ("munmap", 11),
        ("access", 21),
        ("arch_prctl", 158),
        ("set_tid_address", 218),
        ("set_robust_list", 273),
        ("rseq", 334),
        ("getrandom", 318),
        ("exit_group", 231),
        ("prlimit64", 302),
        ("pread64", 17),
    ];
    assert forall|i: int| 0 <= i < SYSCALL_COUNT implies (#[trigger] t@[i].0@, t@[i].1) == syscall_row(i) by {}
    t
}

/// The x86_64 number of a system call name, if this runtime knows it.
pub fn syscall_number(name: &str) -> (r: Option<i64>)
    ensures
        r == syscall_number_spec(name@),
{
    let t = syscall_table();
    let mut i: usize = 0;
    while i < t.len()
        invariant
            t.len() == SYSCALL_COUNT,
            forall|k: int| 0 <= k < SYSCALL_COUNT ==> (#[trigger] t@[k].0@, t@[k].1) == syscall_row(k),
            i <= t.len(),
            forall|k: int| 0 <= k < i ==> #[trigger] syscall_row(k).0 != name@,
        decreases t.len() - i,
    {
        let (entry, number) = t[i];
        if str_eq(name, entry) {
            proof {
                assert(syscall_row(i as int).0 == name@);
                lemma_syscall_names_distinct();
                let c = choose|c: int| 0 <= c < SYSCALL_COUNT && #[trigger] syscall_row(c).0 == name@;
                if c < i {
                } else if c > i {
                    assert(syscall_row(i as int).0 != syscall_row(c).0);
                }
            }
            return Some(number);
        }
        i = i + 1;
    }
    None
}

impl SyscallRule {
    /// Resolves the rule's action and names. Refused, in this order: a rule
    /// without names, a rule with argument conditions, an unknown action,
    /// and the first unknown system call name.
    pub fn resolve(&self) -> (r: Result<ResolveRule, SeccompError>)
        ensures
            match r {
                Ok(rule) => rule_spec(*self) == Ok::<(Seq<i64>, u32), SeccompFault>(rule_model(rule)),
                Err(e) => rule_spec(*self) == Err::<(Seq<i64>, u32), SeccompFault>(e@),
            },
    {
        if self.names.len() == 0 {
            return Err(SeccompError::EmptyNames);
        }
        if self.args.len() > 0 {
            return Err(SeccompError::ArgConditions(copy_strings(&self.names)));
        }
        let action = match resolve_action(self.action.as_str()) {
            Some(a) => a,
            None => {
                return Err(SeccompError::UnknownAction(self.action.clone()));
            },
        };
        let ghost names = strings_view(self.names@);
        let mut numbers: Vec<i64> = Vec::new();
        let mut i: usize = 0;
        while i < self.names.len()
            invariant
                i <= self.names.len(),
                names == strings_view(self.names@),
                self.names@.len() > 0,
                self.args@.len() == 0,
                action_code(self.action@) == Some(action),
                numbers_spec(names.take(i as int)) == Ok::<Seq<i64>, Seq<char>>(numbers@),
            decreases self.names.len() - i,
        {
            assert(names.take(i + 1).drop_last() =~= names.take(i as int));
            match syscall_number(self.names[i].as_str()) {
                Some(n) => {
                    numbers.push(n);
                },
                None => {
                    proof {
                        lemma_numbers_fail_prefix(names, i as int + 1);
                        assert(names.take(i + 1).last() == names[i as int]);
                        assert(names[i as int] == self.names@[i as int]@);
                    }
                    let bad = self.names[i].clone();
                    assert(numbers_spec(names) == Err::<Seq<i64>, Seq<char>>(bad@));
                    return Err(SeccompError::UnknownSyscall(bad));
                },
            }
            i = i + 1;
        }
        assert(names.take(i as int) =~= names);
        Ok(ResolveRule { numbers, action })
    }
}

/// Once a prefix of the names has an unknown one, the whole list fails on it.
pub proof fn lemma_numbers_fail_prefix(names: Seq<Seq<char>>, k: int)
    requires
        0 <= k <= names.len(),
        numbers_spec(names.take(k)) is Err,
    ensures
        numbers_spec(names) == numbers_spec(names.take(k)),
    decreases names.len() - k,
{
    if k < names.len() {
        assert(names.take(k + 1).drop_last() =~= names.take(k));
        lemma_numbers_fail_prefix(names, k + 1);
    } else {
        assert(names.take(k) =~= names);
    }
}

/// Once a prefix of the rules fails, the whole list fails the same way.
pub proof fn lemma_rules_fail_prefix(rs: Seq<SyscallRule>, k: int)
    requires
        0 <= k <= rs.len(),
        rules_spec(rs.take(k)) is Err,
    ensures
        rules_spec(rs) == rules_spec(rs.take(k)),
    decreases rs.len() - k,
{
    if k < rs.len() {
        assert(rs.take(k + 1).drop_last() =~= rs.take(k));
        lemma_rules_fail_prefix(rs, k + 1);
    } else {
        assert(rs.take(k) =~= rs);
    }
}

/// Whether the architecture list is empty or names x86_64.
fn targets_x86_64(archs: &Vec<String>) -> (r: bool)
    ensures
        r == (strings_view(archs@).len() == 0 || strings_view(archs@).contains("SCMP_ARCH_X86_64"@)),
{
    if archs.len() == 0 {
        return true;
    }
    let ghost view = strings_view(archs@);
    let mut i: usize = 0;
    while i < archs.len()
        invariant
            i <= archs.len(),
            view == strings_view(archs@),
            forall|j: int| 0 <= j < i ==> view[j] != "SCMP_ARCH_X86_64"@,
        decreases archs.len() - i,
    {
        if str_eq(archs[i].as_str(), "SCMP_ARCH_X86_64") {
            assert(view[i as int] == "SCMP_ARCH_X86_64"@);
            return true;
        }
        i = i + 1;
    }
    false
}

impl SeccompProfile {
    /// Checks the profile and turns it into numbers: the architecture list
    /// must be empty or name x86_64; every rule must resolve, the first one
    /// that does not deciding the error; and the default action must be known.
    pub fn resolve(&self) -> (r: Result<ResolvedProfile, SeccompError>)
        ensures
            match r {
                Ok(p) => profile_spec(*self) == Ok::<(Seq<(Seq<i64>, u32)>, u32), SeccompFault>(p@),
                Err(e) => profile_spec(*self) == Err::<(Seq<(Seq<i64>, u32)>, u32), SeccompFault>(e@),
            },
    {
        if !targets_x86_64(&self.architectures) {
            return Err(SeccompError::UnsupportedArchitecture);
        }
        let ghost rs = self.syscalls@;
        let mut rules: Vec<ResolveRule> = Vec::new();
        let mut i: usize = 0;
        assert(rs.take(0) =~= Seq::<SyscallRule>::empty());
        assert(rules@.map_values(|r: ResolveRule| rule_model(r)) =~= Seq::<(Seq<i64>, u32)>::empty());
        while i < self.syscalls.len()
            invariant
                i <= self.syscalls.len(),
                rs == self.syscalls@,
                strings_view(self.architectures@).len() == 0 || strings_view(
                    self.architectures@,
                ).contains("SCMP_ARCH_X86_64"@),
                rules_spec(rs.take(i as int)) == Ok::<Seq<(Seq<i64>, u32)>, SeccompFault>(
                    rules@.map_values(|r: ResolveRule| rule_model(r)),
                ),
            decreases self.syscalls.len() - i,
        {
            assert(rs.take(i + 1).drop_last() =~= rs.take(i as int));
            assert(rs.take(i + 1).last() == rs[i as int]);
            match self.syscalls[i].resolve() {
                Ok(rule) => {
                    let ghost before = rules@.map_values(|r: ResolveRule| rule_model(r));
                    rules.push(rule);
                    assert(rules@.map_values(|r: ResolveRule| rule_model(r)) =~= before.push(
                        rule_model(rule),
                    ));
                },
                Err(e) => {
                    proof {
                        lemma_rules_fail_prefix(rs, i as int + 1);
                        assert(rules_spec(rs) == Err::<Seq<(Seq<i64>, u32)>, SeccompFault>(e@));
                    }
                    return Err(e);
                },
            }
            i = i + 1;
        }
        assert(rs.take(i as int) =~= rs);
        let default_action = match resolve_action(self.default_action.as_str()) {
            Some(d) => d,
            None => {
                return Err(SeccompError::UnknownDefaultAction(self.default_action.clone()));
            },
        };
        Ok(ResolvedProfile { rules, default_action })
    }
}

/// The default filter's list, as a vector.
pub fn dangerous_syscall_list() -> (v: Vec<i64>)
    ensures
        v@ == dangerous_syscalls(),
{
    let v: Vec<i64> = vec![169, 163, 167, 168, 165, 166, 155, 304, 139, 175, 313, 176, 246, 320, 101, 310, 311, 312, 172, 173, 164, 227, 305, 159, 248, 249, 250, 321, 298, 425, 426, 427, 237, 238, 239, 279, 308, 179, 180, 212, 134, 136, 323, 156, 135];
    assert(v@ =~= dangerous_syscalls());
    v
}

/// A load of the seccomp data word at `offset`.
pub open spec fn load_ins(offset: u32) -> SockFilter {
    SockFilter { code: OP_LOAD_WORD, jt: 0, jf: 0, k: offset }
}

/// A test of the accumulator against `k` that falls into the next
/// instruction on a match and skips it otherwise.
pub open spec fn match_ins(k: u32) -> SockFilter {
    SockFilter { code: OP_JUMP_EQ, jt: 0, jf: 1, k }
}

/// A return of the verdict `k`.
pub open spec fn ret_ins(k: u32) -> SockFilter {
    SockFilter { code: OP_RETURN, jt: 0, jf: 0, k }
}

/// The six instructions every filter starts with: load the architecture,
/// kill the process unless it is x86_64, load the system call number, and
/// kill the process when it is an x32-ABI number (at or above the x32 bit).
pub open spec fn header() -> Seq<SockFilter> {
    seq![
        load_ins(OFFSET_ARCH),
        SockFilter { code: OP_JUMP_EQ, jt: 1, jf: 0, k: AUDIT_ARCH_X86_64 },
        ret_ins(SECCOMP_RET_KILL_PROCESS),
        load_ins(OFFSET_NR),
        SockFilter { code: OP_JUMP_GE, jt: 0, jf: 1, k: X32_SYSCALL_BIT },
        ret_ins(SECCOMP_RET_KILL_PROCESS),
    ]
}

/// One test-and-return pair per (number, verdict) pair, in order.
pub open spec fn pair_code(pairs: Seq<(u32, u32)>) -> Seq<SockFilter> {
    Seq::new(
        2 * pairs.len(),
        |i: int|
            if i % 2 == 0 {
                match_ins(pairs[i / 2].0)
            } else {
                ret_ins(pairs[i / 2].1)
            },
    )
}

/// The (number, verdict) pairs of one resolved rule; the number is taken
/// as the 32-bit value the filter compares.
pub open spec fn rule_pairs_of(r: (Seq<i64>, u32)) -> Seq<(u32, u32)> {
    r.0.map_values(|n: i64| (n as u32, r.1))
}

/// The (number, verdict) pairs of all rules, rule after rule.
pub open spec fn rule_pairs(rules: Seq<(Seq<i64>, u32)>) -> Seq<(u32, u32)>
    decreases rules.len(),
{
    if rules.len() == 0 {
        Seq::<(u32, u32)>::empty()
    } else {
        rule_pairs_of(rules[0]) + rule_pairs(rules.drop_first())
    }
}

/// The whole program for a list of pairs and a final verdict.
pub open spec fn filter_program(pairs: Seq<(u32, u32)>, default: u32) -> Seq<SockFilter> {
    header() + pair_code(pairs) + seq![ret_ins(default)]
}

/// The pairs of the default filter: every dangerous call is killed.
pub open spec fn default_pairs() -> Seq<(u32, u32)> {
    dangerous_syscalls().map_values(|n: i64| (n as u32, SECCOMP_RET_KILL_PROCESS))
}

/// The program compiled for a resolved profile, or for no profile.
pub open spec fn profile_program(p: Option<(Seq<(Seq<i64>, u32)>, u32)>) -> Seq<SockFilter> {
    match p {
        Some(m) => filter_program(rule_pairs(m.0), m.1),
        None => filter_program(default_pairs(), SECCOMP_RET_ALLOW),
    }
}

/// The model of an optional resolved profile.
pub open spec fn profile_model(p: Option<&ResolvedProfile>) -> Option<(Seq<(Seq<i64>, u32)>, u32)> {
    match p {
        Some(r) => Some(r@),
        None => None,
    }
}

/// Some number of the list is `nr` once cut to 32 bits.
pub open spec fn names_call(numbers: Seq<i64>, nr: u32) -> bool {
    exists|j: int| 0 <= j < numbers.len() && numbers[j] as u32 == nr
}

/// The verdict of the first rule that names `nr`, else `default`.
pub open spec fn rule_action(rules: Seq<(Seq<i64>, u32)>, nr: u32, default: u32) -> u32
    decreases rules.len(),
{
    if rules.len() == 0 {
        default
    } else if names_call(rules[0].0, nr) {
        rules[0].1
    } else {
        rule_action(rules.drop_first(), nr, default)
    }
}

/// What the runtime means to decide for a system call `nr` made under
/// `arch`: a foreign architecture is killed outright, and so is an x32-ABI
/// number; otherwise, with a profile, the first rule naming the call
/// decides, else the profile's default; with none, dangerous calls are
/// killed and the rest allowed.
pub open spec fn profile_decision(p: Option<(Seq<(Seq<i64>, u32)>, u32)>, arch: u32, nr: u32) -> u32 {
    if arch != AUDIT_ARCH_X86_64 {
        SECCOMP_RET_KILL_PROCESS
    } else if nr >= X32_SYSCALL_BIT {
        SECCOMP_RET_KILL_PROCESS
    } else {
        match p {
            Some(m) => rule_action(m.0, nr, m.1),
            None => if names_call(dangerous_syscalls(), nr) {
                SECCOMP_RET_KILL_PROCESS
            } else {
                SECCOMP_RET_ALLOW
            },
        }
    }
}

/// The verdict of the first pair whose number is `nr`, else `default`.
pub open spec fn first_match(pairs: Seq<(u32, u32)>, nr: u32, default: u32) -> u32
    decreases pairs.len(),
{
    if pairs.len() == 0 {
        default
    } else if pairs[0].0 == nr {
        pairs[0].1
    } else {
        first_match(pairs.drop_first(), nr, default)
    }
}

proof fn lemma_pair_code_index(pairs: Seq<(u32, u32)>, j: int)
    requires
        0 <= j < pairs.len(),
    ensures
        pair_code(pairs).len() == 2 * pairs.len(),
        pair_code(pairs)[2 * j] == match_ins(pairs[j].0),
        pair_code(pairs)[2 * j + 1] == ret_ins(pairs[j].1),
{
    assert((2 * j) % 2 == 0 && (2 * j) / 2 == j) by (nonlinear_arith);
    assert((2 * j + 1) % 2 == 1 && (2 * j + 1) / 2 == j) by (nonlinear_arith);
}

proof fn lemma_pair_code_push(pairs: Seq<(u32, u32)>, x: (u32, u32))
    ensures
        pair_code(pairs.push(x)) =~= pair_code(pairs) + seq![match_ins(x.0), ret_ins(x.1)],
{
    let a = pair_code(pairs.push(x));
    let b = pair_code(pairs) + seq![match_ins(x.0), ret_ins(x.1)];
    assert forall|i: int| 0 <= i < a.len() implies a[i] == b[i] by {
        let j = i / 2;
        assert(0 <= j <= pairs.len() && (i == 2 * j || i == 2 * j + 1)) by (nonlinear_arith)
            requires
                0 <= i < 2 * pairs.len() + 2,
                j == i / 2,
        ;
        lemma_pair_code_index(pairs.push(x), j);
        if j < pairs.len() {
            lemma_pair_code_index(pairs, j);
        }
    }
}

/// Running the pairs from the `j`-th one on, with the system call number in
/// the accumulator, returns the verdict of the first of them that matches.
proof fn lemma_pairs_run(pairs: Seq<(u32, u32)>, default: u32, nr: u32, arch: u32, j: int)
    requires
        0 <= j <= pairs.len(),
    ensures
        run(filter_program(pairs, default), nr, arch, 6 + 2 * j, nr) == Some(
            first_match(pairs.skip(j), nr, default),
        ),
    decreases pairs.len() - j,
{
    let prog = filter_program(pairs, default);
    assert(pair_code(pairs).len() == 2 * pairs.len());
    if j == pairs.len() {
        assert(prog[6 + 2 * j] == ret_ins(default));
        assert(pairs.skip(j).len() == 0);
        assert(run(prog, nr, arch, 6 + 2 * j, nr) == Some(default));
    } else {
        lemma_pair_code_index(pairs, j);
        assert(prog[6 + 2 * j] == match_ins(pairs[j].0));
        assert(prog[6 + 2 * j + 1] == ret_ins(pairs[j].1));
        assert(pairs.skip(j)[0] == pairs[j]);
        assert(pairs.skip(j).drop_first() =~= pairs.skip(j + 1));
        if pairs[j].0 != nr {
            lemma_pairs_run(pairs, default, nr, arch, j + 1);
            assert(run(prog, nr, arch, 6 + 2 * j, nr) == run(prog, nr, arch, 6 + 2 * (j + 1), nr));
        } else {
            assert(run(prog, nr, arch, 6 + 2 * j + 1, nr) == Some(pairs[j].1));
            assert(run(prog, nr, arch, 6 + 2 * j, nr) == run(prog, nr, arch, 6 + 2 * j + 1, nr));
        }
    }
}

/// The first six instructions: a foreign architecture is killed, so is an
/// x32-ABI number, and otherwise the run goes on at the pairs with the call
/// number loaded.
proof fn lemma_header_run(pairs: Seq<(u32, u32)>, default: u32, nr: u32, arch: u32)
    ensures
        verdict(filter_program(pairs, default), arch, nr) == if arch != AUDIT_ARCH_X86_64 {
            Some(SECCOMP_RET_KILL_PROCESS)
        } else if nr >= X32_SYSCALL_BIT {
            Some(SECCOMP_RET_KILL_PROCESS)
        } else {
            run(filter_program(pairs, default), nr, arch, 6, nr)
        },
{
    let prog = filter_program(pairs, default);
    assert(prog[0] == load_ins(OFFSET_ARCH));
    assert(prog[1] == SockFilter { code: OP_JUMP_EQ, jt: 1, jf: 0, k: AUDIT_ARCH_X86_64 });
    assert(prog[2] == ret_ins(SECCOMP_RET_KILL_PROCESS));
    assert(prog[3] == load_ins(OFFSET_NR));
    assert(prog[4] == SockFilter { code: OP_JUMP_GE, jt: 0, jf: 1, k: X32_SYSCALL_BIT });
    assert(prog[5] == ret_ins(SECCOMP_RET_KILL_PROCESS));
    assert(run(prog, nr, arch, 0, 0) == run(prog, nr, arch, 1, arch));
    if arch != AUDIT_ARCH_X86_64 {
        assert(run(prog, nr, arch, 1, arch) == run(prog, nr, arch, 2, arch));
    } else {
        assert(run(prog, nr, arch, 1, arch) == run(prog, nr, arch, 3, arch));
        assert(run(prog, nr, arch, 3, arch) == run(prog, nr, arch, 4, nr));
        if nr >= X32_SYSCALL_BIT {
            assert(run(prog, nr, arch, 4, nr) == run(prog, nr, arch, 5, nr));
        } else {
            assert(run(prog, nr, arch, 4, nr) == run(prog, nr, arch, 6, nr));
        }
    }
}

/// In front of other pairs, a block of pairs that all carry `act` decides
/// `act` when one of them matches, and leaves the decision to the rest
/// otherwise.
proof fn lemma_first_match_block(a: Seq<(u32, u32)>, b: Seq<(u32, u32)>, nr: u32, default: u32, act: u32)
    requires
        forall|k: int| 0 <= k < a.len() ==> (#[trigger] a[k]).1 == act,
    ensures
        first_match(a + b, nr, default) == if exists|k: int| 0 <= k < a.len() && (#[trigger] a[k]).0 == nr {
            act
        } else {
            first_match(b, nr, default)
        },
    decreases a.len(),
{
    if a.len() == 0 {
        assert(a + b =~= b);
    } else {
        assert((a + b)[0] == a[0]);
        assert((a + b).drop_first() =~= a.drop_first() + b);
        lemma_first_match_block(a.drop_first(), b, nr, default, act);
        if a[0].0 != nr {
            if exists|k: int| 0 <= k < a.len() && (#[trigger] a[k]).0 == nr {
                let k = choose|k: int| 0 <= k < a.len() && (#[trigger] a[k]).0 == nr;
                assert(a.drop_first()[k - 1] == a[k]);
            }
            if exists|k: int| 0 <= k < a.drop_first().len() && (#[trigger] a.drop_first()[k]).0 == nr {
                let k = choose|k: int| 0 <= k < a.drop_first().len() && (#[trigger] a.drop_first()[k]).0 == nr;
                assert(a[k + 1] == a.drop_first()[k]);
            }
        }
    }
}

proof fn lemma_rule_pairs_decide(rules: Seq<(Seq<i64>, u32)>, nr: u32, default: u32)
    ensures
        first_match(rule_pairs(rules), nr, default) == rule_action(rules, nr, default),
    decreases rules.len(),
{
    if rules.len() > 0 {
        let a = rule_pairs_of(rules[0]);
        lemma_rule_pairs_decide(rules.drop_first(), nr, default);
        lemma_first_match_block(a, rule_pairs(rules.drop_first()), nr, default, rules[0].1);
        if names_call(rules[0].0, nr) {
            let j = choose|j: int| 0 <= j < rules[0].0.len() && rules[0].0[j] as u32 == nr;
            assert(a[j].0 == nr);
        }
        if exists|k: int| 0 <= k < a.len() && (#[trigger] a[k]).0 == nr {
            let k = choose|k: int| 0 <= k < a.len() && (#[trigger] a[k]).0 == nr;
            assert(rules[0].0[k] as u32 == nr);
        }
    }
}

/// What the compiled filter decides is what the profile means: for every
/// architecture and every system call number, running the program built
/// for a resolved profile (or for none) returns exactly the verdict of
/// `profile_decision`, and never runs off its end.
pub proof fn lemma_filter_enforces_profile(p: Option<(Seq<(Seq<i64>, u32)>, u32)>, arch: u32, nr: u32)
    ensures
        verdict(profile_program(p), arch, nr) == Some(profile_decision(p, arch, nr)),
{
    let (pairs, default) = match p {
        Some(m) => (rule_pairs(m.0), m.1),
        None => (default_pairs(), SECCOMP_RET_ALLOW),
    };
    lemma_header_run(pairs, default, nr, arch);
    lemma_pairs_run(pairs, default, nr, arch, 0);
    assert(pairs.skip(0) =~= pairs);
    match p {
        Some(m) => {
            lemma_rule_pairs_decide(m.0, nr, default);
        },
        None => {
            let a = default_pairs();
            lemma_first_match_block(a, Seq::<(u32, u32)>::empty(), nr, default, SECCOMP_RET_KILL_PROCESS);
            assert(a + Seq::<(u32, u32)>::empty() =~= a);
            if names_call(dangerous_syscalls(), nr) {
                let j = choose|j: int| 0 <= j < dangerous_syscalls().len() && dangerous_syscalls()[j] as u32 == nr;
                assert(a[j].0 == nr);
            }
            if exists|k: int| 0 <= k < a.len() && (#[trigger] a[k]).0 == nr {
                let k = choose|k: int| 0 <= k < a.len() && (#[trigger] a[k]).0 == nr;
                assert(dangerous_syscalls()[k] as u32 == nr);
            }
        },
    }
}

proof fn lemma_rule_pairs_push(rules: Seq<(Seq<i64>, u32)>, r: (Seq<i64>, u32))
    ensures
        rule_pairs(rules.push(r)) =~= rule_pairs(rules) + rule_pairs_of(r),
    decreases rules.len(),
{
    let e = Seq::<(Seq<i64>, u32)>::empty();
    if rules.len() == 0 {
        assert(rules.push(r).drop_first() =~= e);
        assert(rules.push(r)[0] == r);
        assert(rule_pairs(e) =~= Seq::<(u32, u32)>::empty());
        assert(rule_pairs_of(r) + Seq::<(u32, u32)>::empty() =~= rule_pairs_of(r));
        assert(rule_pairs(rules) + rule_pairs_of(r) =~= rule_pairs_of(r));
    } else {
        assert(rules.push(r).drop_first() =~= rules.drop_first().push(r));
        assert(rules.push(r)[0] == rules[0]);
        lemma_rule_pairs_push(rules.drop_first(), r);
        assert(rule_pairs_of(rules[0]) + (rule_pairs(rules.drop_first()) + rule_pairs_of(r))
            =~= (rule_pairs_of(rules[0]) + rule_pairs(rules.drop_first())) + rule_pairs_of(r));
    }
}

/// The six instructions every filter starts with.
fn initialize_filters() -> (prog: Vec<SockFilter>)
    ensures
        prog@ == header(),
{
    let mut prog: Vec<SockFilter> = Vec::new();
    // Architecture gate: load the architecture, and unless it is x86_64 fall
    // through to the kill; on x86_64 skip over it.
    prog.push(stmt(OP_LOAD_WORD, OFFSET_ARCH));
    prog.push(jump(OP_JUMP_EQ, 1, 0, AUDIT_ARCH_X86_64));
    prog.push(stmt(OP_RETURN, SECCOMP_RET_KILL_PROCESS));
    // Load the call number once; every test below reuses it.
    prog.push(stmt(OP_LOAD_WORD, OFFSET_NR));
    // x32-ABI numbers name the same calls under other numbers: kill them
    // rather than let them slip past the tests below.
    prog.push(jump(OP_JUMP_GE, 0, 1, X32_SYSCALL_BIT));
    prog.push(stmt(OP_RETURN, SECCOMP_RET_KILL_PROCESS));
    assert(prog@ =~= header());
    prog
}

/// Appends a test-and-return pair for `nr` and `action`.
fn push_pair(prog: &mut Vec<SockFilter>, nr: u32, action: u32, Ghost(pairs): Ghost<Seq<(u32, u32)>>)
    requires
        old(prog)@ == header() + pair_code(pairs),
    ensures
        final(prog)@ == header() + pair_code(pairs.push((nr, action))),
{
    prog.push(jump(OP_JUMP_EQ, 0, 1, nr));
    prog.push(stmt(OP_RETURN, action));
    proof {
        lemma_pair_code_push(pairs, (nr, action));
    }
    assert(prog@ =~= header() + pair_code(pairs.push((nr, action))));
}

/// Compiles a resolved profile, or the default deny list when there is
/// none, into a BPF program.
pub fn build_filter(profile: Option<&ResolvedProfile>) -> (prog: Vec<SockFilter>)
    ensures
        prog@ == profile_program(profile_model(profile)),
{
    let mut prog = initialize_filters();
    assert(pair_code(Seq::<(u32, u32)>::empty()) =~= Seq::<SockFilter>::empty());
    assert(prog@ =~= header() + pair_code(Seq::<(u32, u32)>::empty()));
    match profile {
        Some(profile) => {
            let ghost rules = profile@.0;
            let mut i: usize = 0;
            while i < profile.rules.len()
                invariant
                    i <= profile.rules.len(),
                    rules == profile@.0,
                    prog@ == header() + pair_code(rule_pairs(rules.take(i as int))),
                decreases profile.rules.len() - i,
            {
                let rule = &profile.rules[i];
                let ghost done = rule_pairs(rules.take(i as int));
                let ghost r = rule_model(*rule);
                assert(rules[i as int] == r);
                let mut j: usize = 0;
                while j < rule.numbers.len()
                    invariant
                        j <= rule.numbers.len(),
                        r == rule_model(*rule),
                        prog@ == header() + pair_code(done + rule_pairs_of(r).take(j as int)),
                    decreases rule.numbers.len() - j,
                {
                    let nr = rule.numbers[j];
                    proof {
                        assert(rule_pairs_of(r).take(j + 1) =~= rule_pairs_of(r).take(j as int).push(
                            (nr as u32, rule.action),
                        ));
                        assert(done + rule_pairs_of(r).take(j + 1) =~= (done + rule_pairs_of(
                            r,
                        ).take(j as int)).push((nr as u32, rule.action)));
                    }
                    push_pair(
                        &mut prog,
                        nr as u32,
                        rule.action,
                        Ghost(done + rule_pairs_of(r).take(j as int)),
                    );
                    j = j + 1;
                }
                proof {
                    assert(rule_pairs_of(r).take(j as int) =~= rule_pairs_of(r));
                    assert(rules.take(i + 1) =~= rules.take(i as int).push(r));
                    lemma_rule_pairs_push(rules.take(i as int), r);
                }
                i = i + 1;
            }
            assert(rules.take(i as int) =~= rules);
            prog.push(stmt(OP_RETURN, profile.default_action));
            assert(prog@ =~= filter_program(rule_pairs(rules), profile.default_action));
        },
        None => {
            // One test-and-kill pair per dangerous call; whatever falls
            // through every pair is allowed.
            let list = dangerous_syscall_list();
            let mut j: usize = 0;
            while j < list.len()
                invariant
                    j <= list.len(),
                    list@ == dangerous_syscalls(),
                    prog@ == header() + pair_code(default_pairs().take(j as int)),
                decreases list.len() - j,
            {
                let nr = list[j];
                assert(default_pairs().take(j + 1) =~= default_pairs().take(j as int).push(
                    (nr as u32, SECCOMP_RET_KILL_PROCESS),
                ));
                push_pair(&mut prog, nr as u32, SECCOMP_RET_KILL_PROCESS, Ghost(default_pairs().take(j as int)));
                j = j + 1;
            }
            assert(default_pairs().take(j as int) =~= default_pairs());
            prog.push(stmt(OP_RETURN, SECCOMP_RET_ALLOW));
            assert(prog@ =~= filter_program(default_pairs(), SECCOMP_RET_ALLOW));
        },
    }
    prog
}

/// Compiles the filter for `profile` (the default deny list when there is
/// none) and hands exactly that program to `install`, returning what
/// `install` returns. Installing a filter needs the kernel, so the caller
/// supplies that step.
pub fn apply_default_filter<E, F: FnOnce(Vec<SockFilter>) -> Result<(), E>>(
    profile: Option<&ResolvedProfile>,
    install: F,
) -> (r: Result<(), E>)
    requires
        forall|p: Vec<SockFilter>| p@ == profile_program(profile_model(profile)) ==> call_requires(install, (p,)),
    ensures
        exists|p: Vec<SockFilter>|
            p@ == profile_program(profile_model(profile)) && call_ensures(install, (p,), r),
{
    let prog = build_filter(profile);
    install(prog)
}

/// When a list of rules resolves, every one of its rules does.
proof fn lemma_rules_ok_each(rs: Seq<SyscallRule>, k: int)
    requires
        0 <= k < rs.len(),
        rules_spec(rs) is Ok,
    ensures
        rule_spec(rs[k]) is Ok,
    decreases rs.len(),
{
    if k < rs.len() - 1 {
        assert(rs.drop_last()[k] == rs[k]);
        lemma_rules_ok_each(rs.drop_last(), k);
    }
}

/// A profile with an argument condition anywhere is refused, never applied
/// with the condition left out; so is one that names a system call this
/// runtime does not know.
pub proof fn lemma_unsupported_rules_refused(p: SeccompProfile, k: int)
    requires
        0 <= k < p.syscalls@.len(),
        p.syscalls@[k].args@.len() > 0 || numbers_spec(strings_view(p.syscalls@[k].names@)) is Err,
    ensures
        profile_spec(p) is Err,
{
    if rules_spec(p.syscalls@) is Ok {
        lemma_rules_ok_each(p.syscalls@, k);
    }
}


/// A profile is refused for its architectures exactly when it lists some
/// and `SCMP_ARCH_X86_64` is none of them, wherever in the list it stands.
pub proof fn lemma_architecture_refusal(p: SeccompProfile)
    ensures
        (exists|i: int| 0 <= i < p.architectures@.len() && #[trigger] p.architectures@[i]@ == "SCMP_ARCH_X86_64"@)
            ==> profile_spec(p) != Err::<(Seq<(Seq<i64>, u32)>, u32), SeccompFault>(
            SeccompFault::UnsupportedArchitecture,
        ),
        p.architectures@.len() > 0 && (forall|i: int|
            0 <= i < p.architectures@.len() ==> #[trigger] p.architectures@[i]@ != "SCMP_ARCH_X86_64"@)
            ==> profile_spec(p) == Err::<(Seq<(Seq<i64>, u32)>, u32), SeccompFault>(
            SeccompFault::UnsupportedArchitecture,
        ),
{
    let archs = strings_view(p.architectures@);
    if exists|i: int| 0 <= i < p.architectures@.len() && #[trigger] p.architectures@[i]@ == "SCMP_ARCH_X86_64"@ {
        let i = choose|i: int| 0 <= i < p.architectures@.len() && #[trigger] p.architectures@[i]@ == "SCMP_ARCH_X86_64"@;
        assert(archs[i] == p.architectures@[i]@);
        lemma_rules_never_architecture(p.syscalls@);
    } else if p.architectures@.len() > 0 {
        assert forall|i: int| 0 <= i < archs.len() implies archs[i] != "SCMP_ARCH_X86_64"@ by {
            assert(archs[i] == p.architectures@[i]@);
        }
    }
}

/// Resolving rules never fails on an architecture.
proof fn lemma_rules_never_architecture(rs: Seq<SyscallRule>)
    ensures
        rules_spec(rs) != Err::<Seq<(Seq<i64>, u32)>, SeccompFault>(SeccompFault::UnsupportedArchitecture),
    decreases rs.len(),
{
    if rs.len() > 0 {
        lemma_rules_never_architecture(rs.drop_last());
    }
}

} // verus!
