use boxed::bpf::{
    SockFilter, OFFSET_ARCH, OFFSET_NR, OP_JUMP_EQ, OP_JUMP_GE, OP_LOAD_WORD, OP_RETURN,
};
use boxed::seccomp::{
    apply_default_filter, build_filter, dangerous_syscall_list, resolve_action, syscall_number, ArgRule, ResolvedProfile,
    SeccompError, SeccompProfile, SyscallRule, AUDIT_ARCH_X86_64, SECCOMP_RET_ALLOW,
    SECCOMP_RET_ERRNO, SECCOMP_RET_KILL, SECCOMP_RET_KILL_PROCESS, X32_SYSCALL_BIT,
};

/// Runs a filter the way the kernel would for the two fields it reads.
fn run(prog: &[SockFilter], arch: u32, nr: u32) -> Option<u32> {
    let mut pc = 0usize;
    let mut acc = 0u32;
    while pc < prog.len() {
        let ins = prog[pc];
        match ins.code {
            OP_LOAD_WORD => {
                acc = match ins.k {
                    OFFSET_NR => nr,
                    OFFSET_ARCH => arch,
                    _ => return None,
                };
                pc += 1;
            }
            OP_JUMP_EQ => {
                pc += 1 + if acc == ins.k { ins.jt as usize } else { ins.jf as usize };
            }
            OP_JUMP_GE => {
                pc += 1 + if acc >= ins.k { ins.jt as usize } else { ins.jf as usize };
            }
            OP_RETURN => return Some(ins.k),
            _ => return None,
        }
    }
    None
}

fn rule(names: &[&str], action: &str) -> SyscallRule {
    SyscallRule {
        names: names.iter().map(|s| s.to_string()).collect(),
        action: action.to_string(),
        args: Vec::new(),
    }
}

fn profile(default: &str, archs: &[&str], rules: Vec<SyscallRule>) -> SeccompProfile {
    SeccompProfile {
        default_action: default.to_string(),
        architectures: archs.iter().map(|s| s.to_string()).collect(),
        syscalls: rules,
    }
}

fn resolved(p: &SeccompProfile) -> ResolvedProfile {
    match p.resolve() {
        Ok(r) => r,
        Err(_) => panic!("profile should resolve"),
    }
}

#[test]
fn constants_match_libc() {
    assert_eq!(SECCOMP_RET_ALLOW, libc::SECCOMP_RET_ALLOW);
    assert_eq!(SECCOMP_RET_ERRNO, libc::SECCOMP_RET_ERRNO);
    assert_eq!(SECCOMP_RET_KILL, libc::SECCOMP_RET_KILL);
    assert_eq!(SECCOMP_RET_KILL_PROCESS, libc::SECCOMP_RET_KILL_PROCESS);
    assert_eq!(OP_LOAD_WORD as u32, libc::BPF_LD | libc::BPF_W | libc::BPF_ABS);
    assert_eq!(OP_JUMP_EQ as u32, libc::BPF_JMP | libc::BPF_JEQ | libc::BPF_K);
    assert_eq!(OP_RETURN as u32, libc::BPF_RET | libc::BPF_K);
    assert_eq!(OP_JUMP_GE as u32, libc::BPF_JMP | libc::BPF_JGE | libc::BPF_K);
    assert_eq!(X32_SYSCALL_BIT, 0x4000_0000);
    // `seccomp_data` starts with `int nr; __u32 arch;`.
    assert_eq!((OFFSET_NR, OFFSET_ARCH), (0, 4));
    assert_eq!(AUDIT_ARCH_X86_64, 0xC000003E);
}

fn named_calls() -> Vec<(&'static str, i64)> {
    vec![
        ("reboot", libc::SYS_reboot),
        ("acct", libc::SYS_acct),
        ("swapon", libc::SYS_swapon),
        ("swapoff", libc::SYS_swapoff),
        ("mount", libc::SYS_mount),
        ("umount2", libc::SYS_umount2),
        ("pivot_root", libc::SYS_pivot_root),
        ("open_by_handle_at", libc::SYS_open_by_handle_at),
        ("sysfs", libc::SYS_sysfs),
        ("init_module", libc::SYS_init_module),
        ("finit_module", libc::SYS_finit_module),
        ("delete_module", libc::SYS_delete_module),
        ("kexec_load", libc::SYS_kexec_load),
        ("kexec_file_load", libc::SYS_kexec_file_load),
        ("ptrace", libc::SYS_ptrace),
        ("process_vm_readv", libc::SYS_process_vm_readv),
        ("process_vm_writev", libc::SYS_process_vm_writev),
        ("kcmp", libc::SYS_kcmp),
        ("iopl", libc::SYS_iopl),
        ("ioperm", libc::SYS_ioperm),
        ("settimeofday", libc::SYS_settimeofday),
        ("clock_settime", libc::SYS_clock_settime),
        ("clock_adjtime", libc::SYS_clock_adjtime),
        ("adjtimex", libc::SYS_adjtimex),
        ("add_key", libc::SYS_add_key),
        ("request_key", libc::SYS_request_key),
        ("keyctl", libc::SYS_keyctl),
        ("bpf", libc::SYS_bpf),
        ("perf_event_open", libc::SYS_perf_event_open),
        ("io_uring_setup", libc::SYS_io_uring_setup),
        ("io_uring_enter", libc::SYS_io_uring_enter),
        ("io_uring_register", libc::SYS_io_uring_register),
        ("mbind", libc::SYS_mbind),
        ("set_mempolicy", libc::SYS_set_mempolicy),
        ("get_mempolicy", libc::SYS_get_mempolicy),
        ("move_pages", libc::SYS_move_pages),
        ("setns", libc::SYS_setns),
        ("quotactl", libc::SYS_quotactl),
        ("nfsservctl", libc::SYS_nfsservctl),
        ("lookup_dcookie", libc::SYS_lookup_dcookie),
        ("uselib", libc::SYS_uselib),
        ("ustat", libc::SYS_ustat),
        ("userfaultfd", libc::SYS_userfaultfd),
        ("_sysctl", libc::SYS__sysctl),
        ("personality", libc::SYS_personality),
        ("execve", libc::SYS_execve),
        ("read", libc::SYS_read),
        ("write", libc::SYS_write),
        ("close", libc::SYS_close),
        ("openat", libc::SYS_openat),
        ("fstat", libc::SYS_fstat),
        ("brk", libc::SYS_brk),
        ("mmap", libc::SYS_mmap),
        ("mprotect", libc::SYS_mprotect),
        ("munmap", libc::SYS_munmap),
        ("access", libc::SYS_access),
        ("arch_prctl", libc::SYS_arch_prctl),
        ("set_tid_address", libc::SYS_set_tid_address),
        ("set_robust_list", libc::SYS_set_robust_list),
        ("rseq", libc::SYS_rseq),
        ("getrandom", libc::SYS_getrandom),
        ("exit_group", libc::SYS_exit_group),
        ("prlimit64", libc::SYS_prlimit64),
        ("pread64", libc::SYS_pread64),
    ]
}

#[test]
fn syscall_numbers_match_libc() {
    for (name, nr) in &named_calls() {
        assert_eq!(syscall_number(name), Some(*nr), "{name}");
    }
    assert_eq!(syscall_number("fork"), None);
    assert_eq!(syscall_number("MOUNT"), None);
    assert_eq!(syscall_number(""), None);
}

#[test]
fn syscall_numbers_distinct_and_name_every_denied_call() {
    let calls = named_calls();
    for (i, (a, _)) in calls.iter().enumerate() {
        for (b, _) in &calls[i + 1..] {
            assert_ne!(syscall_number(a), syscall_number(b), "{a} {b}");
        }
    }
    for nr in dangerous_syscall_list() {
        assert!(
            calls.iter().any(|(name, _)| syscall_number(name) == Some(nr)),
            "{nr}"
        );
    }
    assert_eq!(dangerous_syscall_list().len(), 45);
}

#[test]
fn action_names() {
    assert_eq!(resolve_action("SCMP_ACT_ALLOW"), Some(libc::SECCOMP_RET_ALLOW));
    assert_eq!(resolve_action("SCMP_ACT_ERRNO"), Some(libc::SECCOMP_RET_ERRNO));
    assert_eq!(resolve_action("SCMP_ACT_KILL"), Some(libc::SECCOMP_RET_KILL));
    assert_eq!(resolve_action("SCMP_ACT_KILL_PROCESS"), Some(libc::SECCOMP_RET_KILL_PROCESS));
    assert_eq!(resolve_action("SCMP_ACT_TRAP"), None);
    assert_eq!(resolve_action("scmp_act_allow"), None);
}

#[test]
fn default_filter_kills_mount_and_allows_echo() {
    let prog = build_filter(None);
    let x86 = AUDIT_ARCH_X86_64;
    assert_eq!(run(&prog, x86, libc::SYS_mount as u32), Some(SECCOMP_RET_KILL_PROCESS));
    assert_eq!(run(&prog, x86, libc::SYS_ptrace as u32), Some(SECCOMP_RET_KILL_PROCESS));
    assert_eq!(run(&prog, x86, libc::SYS_personality as u32), Some(SECCOMP_RET_KILL_PROCESS));
    assert_eq!(run(&prog, x86, libc::SYS_write as u32), Some(SECCOMP_RET_ALLOW));
    assert_eq!(run(&prog, x86, libc::SYS_execve as u32), Some(SECCOMP_RET_ALLOW));
    // Any other architecture is killed whatever the call.
    assert_eq!(run(&prog, 0x4000_0003, libc::SYS_write as u32), Some(SECCOMP_RET_KILL_PROCESS));
    // Header, 45 test-and-kill pairs, final allow.
    assert_eq!(prog.len(), 6 + 2 * 45 + 1);
}

#[test]
fn default_filter_kills_x32_calls() {
    let prog = build_filter(None);
    let x86 = AUDIT_ARCH_X86_64;
    // mount through the x32 ABI: 165 | 0x40000000.
    assert_eq!(run(&prog, x86, 0x4000_00A5), Some(SECCOMP_RET_KILL_PROCESS));
    assert_eq!(run(&prog, x86, libc::SYS_write as u32 | X32_SYSCALL_BIT), Some(SECCOMP_RET_KILL_PROCESS));
    assert_eq!(run(&prog, x86, u32::MAX), Some(SECCOMP_RET_KILL_PROCESS));
    assert_eq!(run(&prog, x86, X32_SYSCALL_BIT - 1), Some(SECCOMP_RET_ALLOW));
}

#[test]
fn custom_profile_first_rule_wins() {
    let p = profile(
        "SCMP_ACT_KILL",
        &["SCMP_ARCH_X86_64"],
        vec![
            rule(&["execve", "read", "write", "exit_group"], "SCMP_ACT_ALLOW"),
            rule(&["mount", "write"], "SCMP_ACT_KILL"),
            rule(&["getrandom"], "SCMP_ACT_ERRNO"),
        ],
    );
    let r = resolved(&p);
    assert_eq!(r.default_action, SECCOMP_RET_KILL);
    assert_eq!(r.rules.len(), 3);
    assert_eq!(r.rules[1].numbers, vec![libc::SYS_mount, libc::SYS_write]);
    let prog = build_filter(Some(&r));
    let x86 = AUDIT_ARCH_X86_64;
    assert_eq!(run(&prog, x86, libc::SYS_write as u32), Some(SECCOMP_RET_ALLOW));
    assert_eq!(run(&prog, x86, libc::SYS_mount as u32), Some(SECCOMP_RET_KILL));
    assert_eq!(run(&prog, x86, libc::SYS_getrandom as u32), Some(SECCOMP_RET_ERRNO));
    assert_eq!(run(&prog, x86, libc::SYS_ptrace as u32), Some(SECCOMP_RET_KILL));
    assert_eq!(run(&prog, 0, libc::SYS_write as u32), Some(SECCOMP_RET_KILL_PROCESS));
    assert_eq!(run(&prog, x86, libc::SYS_write as u32 | X32_SYSCALL_BIT), Some(SECCOMP_RET_KILL_PROCESS));
    assert_eq!(prog.len(), 6 + 2 * 7 + 1);
}

#[test]
fn empty_architectures_accepted_other_rejected() {
    let p = profile("SCMP_ACT_ALLOW", &[], vec![]);
    let r = resolved(&p);
    assert_eq!(r.default_action, SECCOMP_RET_ALLOW);
    assert!(r.rules.is_empty());
    let p = profile("SCMP_ACT_ALLOW", &["SCMP_ARCH_AARCH64", "SCMP_ARCH_X86_64"], vec![]);
    assert!(p.resolve().is_ok());
    let p = profile("SCMP_ACT_ALLOW", &["SCMP_ARCH_AARCH64"], vec![]);
    assert!(matches!(p.resolve().err().unwrap(), SeccompError::UnsupportedArchitecture));
}

#[test]
fn profile_with_args_condition_rejected() {
    let mut personality = rule(&["personality"], "SCMP_ACT_ALLOW");
    personality.args.push(ArgRule {
        index: 0,
        value: 0,
        value_two: None,
        op: "SCMP_CMP_EQ".to_string(),
    });
    let p = profile("SCMP_ACT_ERRNO", &[], vec![rule(&["read"], "SCMP_ACT_ALLOW"), personality]);
    match p.resolve().err().unwrap() {
        SeccompError::ArgConditions(names) => assert_eq!(names, vec!["personality".to_string()]),
        _ => panic!("expected an arg-conditional rejection"),
    }
}

#[test]
fn profile_errors_in_order() {
    let p = profile("SCMP_ACT_ALLOW", &[], vec![rule(&[], "SCMP_ACT_ALLOW")]);
    assert!(matches!(p.resolve().err().unwrap(), SeccompError::EmptyNames));
    let p = profile("SCMP_ACT_ALLOW", &[], vec![rule(&["read"], "SCMP_ACT_LOG")]);
    assert!(matches!(p.resolve().err().unwrap(), SeccompError::UnknownAction(a) if a == "SCMP_ACT_LOG"));
    let p = profile("SCMP_ACT_ALLOW", &[], vec![rule(&["read", "fork", "vfork"], "SCMP_ACT_ALLOW")]);
    assert!(matches!(p.resolve().err().unwrap(), SeccompError::UnknownSyscall(n) if n == "fork"));
    let p = profile("SCMP_ACT_NOPE", &[], vec![rule(&["read"], "SCMP_ACT_ALLOW")]);
    assert!(matches!(p.resolve().err().unwrap(), SeccompError::UnknownDefaultAction(a) if a == "SCMP_ACT_NOPE"));
    // A bad rule is reported before a bad default action.
    let p = profile("SCMP_ACT_NOPE", &[], vec![rule(&["fork"], "SCMP_ACT_ALLOW")]);
    assert!(matches!(p.resolve().err().unwrap(), SeccompError::UnknownSyscall(_)));
}

#[test]
fn apply_hands_over_the_built_program() {
    let expected = build_filter(None);
    let mut seen = None;
    let r: Result<(), i32> = apply_default_filter(None, |prog| {
        seen = Some(prog);
        Err(7)
    });
    assert_eq!(r, Err(7));
    assert_eq!(seen.unwrap(), expected);
}
