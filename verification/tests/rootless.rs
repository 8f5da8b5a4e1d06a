use boxed::rootless::{id_map_line, RootlessConfig, RootlessError};

#[test]
fn rootless_defaults_to_root_inside() {
    let c = RootlessConfig::new(true, None, None).ok().unwrap();
    assert!(c.enabled);
    assert_eq!((c.uid, c.gid), (0, 0));
}

#[test]
fn rootless_custom_ids() {
    let c = RootlessConfig::new(true, Some(1000), Some(100)).ok().unwrap();
    assert_eq!((c.uid, c.gid), (1000, 100));
    let c = RootlessConfig::new(false, Some(4294967294), None).ok().unwrap();
    assert!(!c.enabled);
    assert_eq!(c.uid, 4294967294);
}

#[test]
fn sentinel_ids_rejected() {
    assert_eq!(
        RootlessConfig::new(true, Some(4294967295), None).err().unwrap(),
        RootlessError::UidSentinel(4294967295)
    );
    assert_eq!(
        RootlessConfig::new(true, None, Some(4294967295)).err().unwrap(),
        RootlessError::GidSentinel(4294967295)
    );
    // The UID is checked first.
    assert_eq!(
        RootlessConfig::new(true, Some(u32::MAX), Some(u32::MAX)).err().unwrap(),
        RootlessError::UidSentinel(u32::MAX)
    );
    assert_eq!(RootlessConfig::validate_uid(Some(7)), Ok(7));
    assert_eq!(RootlessConfig::validate_gid(None), Ok(0));
}

#[test]
fn id_map_lines() {
    assert_eq!(id_map_line(0, 1000), "0 1000 1\n");
    assert_eq!(id_map_line(1000, 0), "1000 0 1\n");
}
