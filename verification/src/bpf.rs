//! Classic BPF instructions as a seccomp filter uses them, and what a
//! program of them decides for a system call.
use vstd::prelude::*;

verus! {

/// One classic BPF instruction, laid out as the kernel's `sock_filter`.
#[derive(Clone, Copy, Debug, PartialEq, Eq, Structural)]
pub struct SockFilter {
    pub code: u16,
    pub jt: u8,
    pub jf: u8,
    pub k: u32,
}

/// `BPF_LD | BPF_W | BPF_ABS`: load the 32-bit word at offset `k` of the
/// seccomp data into the accumulator.
pub const OP_LOAD_WORD: u16 = 0x20;

/// `BPF_JMP | BPF_JEQ | BPF_K`: skip `jt` instructions when the accumulator
/// equals `k`, else skip `jf`.
pub const OP_JUMP_EQ: u16 = 0x15;

/// `BPF_JMP | BPF_JGE | BPF_K`: skip `jt` instructions when the accumulator
/// is at least `k` (unsigned), else skip `jf`.
pub const OP_JUMP_GE: u16 = 0x35;

/// `BPF_RET | BPF_K`: stop with the verdict `k`.
pub const OP_RETURN: u16 = 0x06;

/// Offset of the system call number in the kernel's `seccomp_data`.
pub const OFFSET_NR: u32 = 0;

/// Offset of the audit architecture in the kernel's `seccomp_data`.
pub const OFFSET_ARCH: u32 = 4;

/// An instruction that takes no jump offsets.
pub fn stmt(code: u16, k: u32) -> (f: SockFilter)
    ensures
        f == (SockFilter { code, jt: 0, jf: 0, k }),
{
    SockFilter { code, jt: 0, jf: 0, k }
}

/// A conditional jump.
pub fn jump(code: u16, jt: u8, jf: u8, k: u32) -> (f: SockFilter)
    ensures
        f == (SockFilter { code, jt, jf, k }),
{
    SockFilter { code, jt, jf, k }
}

/// The word a load at `offset` reads, for the two fields a filter looks at.
pub open spec fn load_word(offset: u32, nr: u32, arch: u32) -> Option<u32> {
    if offset == OFFSET_NR {
        Some(nr)
    } else if offset == OFFSET_ARCH {
        Some(arch)
    } else {
        None
    }
}

/// What running `prog` from instruction `pc` with accumulator `acc` returns
/// for a system call `nr` made under architecture `arch`. `None` when the
/// program runs off its end, loads a field not modelled here, or holds an
/// instruction outside the four kinds above. Jumps only go forward, so
/// the run ends.
pub open spec fn run(prog: Seq<SockFilter>, nr: u32, arch: u32, pc: int, acc: u32) -> Option<u32>
    decreases prog.len() - pc,
{
    if pc < 0 || pc >= prog.len() {
        None
    } else {
        let ins = prog[pc];
        if ins.code == OP_LOAD_WORD {
            match load_word(ins.k, nr, arch) {
                Some(w) => run(prog, nr, arch, pc + 1, w),
                None => None,
            }
        } else if ins.code == OP_JUMP_EQ || ins.code == OP_JUMP_GE {
            let taken = if ins.code == OP_JUMP_EQ {
                acc == ins.k
            } else {
                acc >= ins.k
            };
            let skip: u8 = if taken {
                ins.jt
            } else {
                ins.jf
            };
            let next = pc + 1 + skip;
            if next > prog.len() {
                None
            } else {
                run(prog, nr, arch, next, acc)
            }
        } else if ins.code == OP_RETURN {
            Some(ins.k)
        } else {
            None
        }
    }
}

/// The verdict of a filter program for one system call.
pub open spec fn verdict(prog: Seq<SockFilter>, arch: u32, nr: u32) -> Option<u32> {
    run(prog, nr, arch, 0, 0)
}

} // verus!
