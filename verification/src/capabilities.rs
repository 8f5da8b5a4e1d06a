//! Which Linux capabilities a container keeps, and which it gives up.
//! Capabilities are named by their kernel numbers.
use vstd::prelude::*;

verus! {

pub const CAP_CHOWN: u8 = 0;
pub const CAP_DAC_OVERRIDE: u8 = 1;
pub const CAP_DAC_READ_SEARCH: u8 = 2;
pub const CAP_FOWNER: u8 = 3;
pub const CAP_FSETID: u8 = 4;
pub const CAP_SETGID: u8 = 6;
pub const CAP_SETUID: u8 = 7;
pub const CAP_SETPCAP: u8 = 8;
pub const CAP_LINUX_IMMUTABLE: u8 = 9;
pub const CAP_NET_BIND_SERVICE: u8 = 10;
pub const CAP_NET_ADMIN: u8 = 12;
pub const CAP_NET_RAW: u8 = 13;
pub const CAP_SYS_MODULE: u8 = 16;
pub const CAP_SYS_RAWIO: u8 = 17;
pub const CAP_SYS_CHROOT: u8 = 18;
pub const CAP_SYS_PTRACE: u8 = 19;
pub const CAP_SYS_ADMIN: u8 = 21;
pub const CAP_SYS_BOOT: u8 = 22;
pub const CAP_SYS_TIME: u8 = 25;
pub const CAP_MKNOD: u8 = 27;
pub const CAP_AUDIT_WRITE: u8 = 29;
pub const CAP_SETFCAP: u8 = 31;
pub const CAP_MAC_OVERRIDE: u8 = 32;
pub const CAP_MAC_ADMIN: u8 = 33;
pub const CAP_SYSLOG: u8 = 34;
pub const CAP_BPF: u8 = 39;

/// The highest capability number the capability library knows.
pub const CAP_LAST: u8 = 40;

/// The capabilities a container keeps: what a shell and ordinary
/// tools need to manage files, users and sockets inside it.
pub open spec fn retained_spec() -> Seq<u8> {
    seq![
        CAP_CHOWN,
        CAP_DAC_OVERRIDE,
        CAP_FSETID,
        CAP_FOWNER,
        CAP_MKNOD,
        CAP_NET_RAW,
        CAP_SETGID,
        CAP_SETUID,
        CAP_SETFCAP,
        CAP_NET_BIND_SERVICE,
        CAP_SYS_CHROOT,
        CAP_SETPCAP,
        CAP_AUDIT_WRITE,
    ]
}

/// Capabilities that hand a container control over the host: never kept.
pub open spec fn dangerous_caps() -> Seq<u8> {
    seq![
        CAP_SYS_ADMIN,
        CAP_SYS_MODULE,
        CAP_SYS_PTRACE,
        CAP_SYS_RAWIO,
        CAP_SYS_BOOT,
        CAP_SYS_TIME,
        CAP_NET_ADMIN,
        CAP_DAC_READ_SEARCH,
        CAP_LINUX_IMMUTABLE,
        CAP_MAC_ADMIN,
        CAP_MAC_OVERRIDE,
        CAP_SYSLOG,
        CAP_BPF,
    ]
}

/// Every capability the capability library knows.
pub open spec fn known_caps() -> Set<u8> {
    Set::new(|c: u8| c <= CAP_LAST)
}

/// The capabilities a container keeps.
pub fn retained_capabilities() -> (v: Vec<u8>)
    ensures
        v@ == retained_spec(),
{
    let v: Vec<u8> = vec![
        CAP_CHOWN,
        CAP_DAC_OVERRIDE,
        CAP_FSETID,
        CAP_FOWNER,
        CAP_MKNOD,
        CAP_NET_RAW,
        CAP_SETGID,
        CAP_SETUID,
        CAP_SETFCAP,
        CAP_NET_BIND_SERVICE,
        CAP_SYS_CHROOT,
        CAP_SETPCAP,
        CAP_AUDIT_WRITE,
    ];
    assert(v@ =~= retained_spec());
    v
}

/// Whether the container keeps `cap`.
pub fn is_retained(cap: u8) -> (r: bool)
    ensures
        r == retained_spec().contains(cap),
{
    let kept = retained_capabilities();
    let mut i: usize = 0;
    while i < kept.len()
        invariant
            i <= kept.len(),
            kept@ == retained_spec(),
            forall|j: int| 0 <= j < i ==> kept@[j] != cap,
        decreases kept.len() - i,
    {
        if kept[i] == cap {
            assert(kept@[i as int] == cap);
            return true;
        }
        i = i + 1;
    }
    false
}

/// The capabilities of `all` that the container gives up, in order.
pub open spec fn to_drop_spec(all: Seq<u8>) -> Seq<u8>
    decreases all.len(),
{
    if all.len() == 0 {
        Seq::<u8>::empty()
    } else if retained_spec().contains(all.last()) {
        to_drop_spec(all.drop_last())
    } else {
        to_drop_spec(all.drop_last()).push(all.last())
    }
}

/// The capabilities of `all` that are not kept, in the order of `all`.
pub fn select_to_drop(all: &Vec<u8>) -> (v: Vec<u8>)
    ensures
        v@ == to_drop_spec(all@),
{
    let mut v: Vec<u8> = Vec::new();
    let mut i: usize = 0;
    while i < all.len()
        invariant
            i <= all.len(),
            v@ == to_drop_spec(all@.take(i as int)),
        decreases all.len() - i,
    {
        assert(all@.take(i + 1).drop_last() =~= all@.take(i as int));
        let cap = all[i];
        if !is_retained(cap) {
            v.push(cap);
        }
        i = i + 1;
    }
    assert(all@.take(i as int) =~= all@);
    v
}

/// The numbers of every capability the `caps` crate knows, from
/// `caps::all()`. That set is every capability from CAP_CHOWN (0) to
/// CAP_CHECKPOINT_RESTORE (40), once each; it is a hash set, so the order
/// in which they come out is not stated.
#[verifier::external_body]
fn all_capabilities() -> (v: Vec<u8>)
    ensures
        v@.to_set() == known_caps(),
        v@.no_duplicates(),
{
    caps::all().into_iter().map(|c| c as u8).collect()
}

/// Every known capability that the container does not keep, each once.
pub fn capabilities_to_drop() -> (v: Vec<u8>)
    ensures
        v@.no_duplicates(),
        forall|c: u8| v@.contains(c) <==> (c <= CAP_LAST && !retained_spec().contains(c)),
{
    let all = all_capabilities();
    let v = select_to_drop(&all);
    proof {
        lemma_to_drop_members(all@);
        assert forall|c: u8| all@.contains(c) <==> c <= CAP_LAST by {
            assert(all@.to_set().contains(c) == known_caps().contains(c));
        }
        assert forall|c: u8| v@.contains(c) <==> (c <= CAP_LAST && !retained_spec().contains(c)) by {
            assert(all@.contains(c) <==> c <= CAP_LAST);
        }
    }
    v
}

/// What `to_drop_spec` keeps: exactly the members of `all` that are not
/// retained, with no duplicates when `all` has none.
pub proof fn lemma_to_drop_members(all: Seq<u8>)
    ensures
        forall|c: u8| to_drop_spec(all).contains(c) <==> (all.contains(c) && !retained_spec().contains(c)),
        all.no_duplicates() ==> to_drop_spec(all).no_duplicates(),
    decreases all.len(),
{
    if all.len() > 0 {
        let rest = all.drop_last();
        let x = all.last();
        lemma_to_drop_members(rest);
        let prev = to_drop_spec(rest);
        assert forall|c: u8| all.contains(c) <==> (rest.contains(c) || c == x) by {
            if all.contains(c) {
                let k = choose|k: int| 0 <= k < all.len() && all[k] == c;
                if k < all.len() - 1 {
                    assert(rest[k] == c);
                }
            }
            if rest.contains(c) {
                let k = choose|k: int| 0 <= k < rest.len() && rest[k] == c;
                assert(all[k] == c);
            }
            if c == x {
                assert(all[all.len() - 1] == c);
            }
        }
        if !retained_spec().contains(x) {
            assert forall|c: u8| prev.push(x).contains(c) <==> (prev.contains(c) || c == x) by {
                if prev.push(x).contains(c) {
                    let k = choose|k: int| 0 <= k < prev.len() + 1 && prev.push(x)[k] == c;
                    if k < prev.len() {
                        assert(prev[k] == c);
                    }
                }
                if prev.contains(c) {
                    let k = choose|k: int| 0 <= k < prev.len() && prev[k] == c;
                    assert(prev.push(x)[k] == c);
                }
                if c == x {
                    assert(prev.push(x)[prev.len() as int] == c);
                }
            }
        }
        if all.no_duplicates() {
            assert(rest.no_duplicates()) by {
                assert forall|i: int, j: int|
                    0 <= i < rest.len() && 0 <= j < rest.len() && i != j implies rest[i] != rest[j] by {
                    assert(rest[i] == all[i] && rest[j] == all[j]);
                }
            }
            assert(!rest.contains(x)) by {
                if rest.contains(x) {
                    let k = choose|k: int| 0 <= k < rest.len() && rest[k] == x;
                    assert(all[k] == all[all.len() - 1]);
                }
            }
            if !retained_spec().contains(x) {
                assert(!prev.contains(x));
                assert forall|i: int, j: int|
                    0 <= i < prev.len() + 1 && 0 <= j < prev.len() + 1 && i != j implies prev.push(x)[i]
                    != prev.push(x)[j] by {
                    if i == prev.len() {
                        assert(prev.contains(prev.push(x)[j]));
                    } else if j == prev.len() {
                        assert(prev.contains(prev.push(x)[i]));
                    }
                }
            }
        }
    }
}

/// The container keeps no capability twice, keeps only capabilities the
/// kernel defines, and never keeps one of the dangerous ones.
pub proof fn lemma_retained_set_is_safe()
    ensures
        retained_spec().no_duplicates(),
        forall|i: int| 0 <= i < retained_spec().len() ==> known_caps().contains(#[trigger] retained_spec()[i]),
        forall|c: u8| dangerous_caps().contains(c) ==> !retained_spec().contains(c),
{
    let r = retained_spec();
    let d = dangerous_caps();
    assert forall|c: u8| d.contains(c) implies !r.contains(c) by {
        let k = choose|k: int| 0 <= k < d.len() && d[k] == c;
        if r.contains(c) {
            let j = choose|j: int| 0 <= j < r.len() && r[j] == c;
        }
    }
}

} // verus!
