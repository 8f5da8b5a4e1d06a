use boxed::capabilities::{capabilities_to_drop, is_retained, retained_capabilities, select_to_drop};
use caps::Capability;
use std::collections::HashSet;

#[test]
fn retained_has_no_duplicates() {
    let kept = retained_capabilities();
    let set: HashSet<u8> = kept.iter().copied().collect();
    assert_eq!(set.len(), kept.len());
}

#[test]
fn retained_is_the_safe_set() {
    let expected: HashSet<u8> = [
        Capability::CAP_CHOWN,
        Capability::CAP_DAC_OVERRIDE,
        Capability::CAP_FSETID,
        Capability::CAP_FOWNER,
        Capability::CAP_MKNOD,
        Capability::CAP_NET_RAW,
        Capability::CAP_SETGID,
        Capability::CAP_SETUID,
        Capability::CAP_SETFCAP,
        Capability::CAP_NET_BIND_SERVICE,
        Capability::CAP_SYS_CHROOT,
        Capability::CAP_SETPCAP,
        Capability::CAP_AUDIT_WRITE,
    ]
    .iter()
    .map(|c| c.index())
    .collect();
    let kept: HashSet<u8> = retained_capabilities().into_iter().collect();
    assert_eq!(kept, expected);
}

#[test]
fn dangerous_caps_excluded() {
    for cap in [
        Capability::CAP_SYS_ADMIN,
        Capability::CAP_SYS_MODULE,
        Capability::CAP_SYS_PTRACE,
        Capability::CAP_SYS_RAWIO,
        Capability::CAP_SYS_BOOT,
        Capability::CAP_NET_ADMIN,
        Capability::CAP_SYS_TIME,
        Capability::CAP_BPF,
    ] {
        assert!(!is_retained(cap.index()), "{cap:?}");
    }
}

#[test]
fn retained_is_subset_of_all_caps() {
    let all: HashSet<u8> = caps::all().iter().map(|c| c.index()).collect();
    for cap in retained_capabilities() {
        assert!(all.contains(&cap));
    }
}

#[test]
fn drop_list_is_everything_else() {
    let all: HashSet<u8> = caps::all().iter().map(|c| c.index()).collect();
    let kept: HashSet<u8> = retained_capabilities().into_iter().collect();
    let dropped = capabilities_to_drop();
    let dropped_set: HashSet<u8> = dropped.iter().copied().collect();
    assert_eq!(dropped_set.len(), dropped.len());
    assert_eq!(dropped_set, all.difference(&kept).copied().collect());
    assert_eq!(dropped.len(), 41 - 13);
}

#[test]
fn select_keeps_order() {
    assert_eq!(select_to_drop(&vec![21, 0, 19, 13, 40]), vec![21, 19, 40]);
    assert_eq!(select_to_drop(&vec![]), Vec::<u8>::new());
}
