use boxed::overlay::{discover_lower_layers, lex_le_exec, lowerdir_string, mount_data, overlay_dir_name, OverlayError};

fn strings(v: &[&str]) -> Vec<String> {
    v.iter().map(|s| s.to_string()).collect()
}

#[test]
fn layers_topmost_first() {
    let layers = strings(&["/img/10-app", "/img/00-base", "/img/05-tools"]);
    assert_eq!(
        discover_lower_layers(layers),
        Ok(strings(&["/img/10-app", "/img/05-tools", "/img/00-base"]))
    );
    assert_eq!(discover_lower_layers(Vec::new()), Err(OverlayError::NoLayers));
    assert_eq!(
        discover_lower_layers(strings(&["/i/a", "/i/ab", "/i/B"])),
        Ok(strings(&["/i/ab", "/i/a", "/i/B"]))
    );
}

#[test]
fn string_order_matches_std() {
    for (a, b) in [("a", "b"), ("ab", "a"), ("", "x"), ("x", "x"), ("é", "z"), ("Z", "a")] {
        assert_eq!(lex_le_exec(a, b), a <= b, "{a} {b}");
        assert_eq!(lex_le_exec(b, a), b <= a, "{b} {a}");
    }
}

#[test]
fn lowerdir_and_mount_data() {
    let lower = lowerdir_string(&strings(&["/l/2", "/l/1"]));
    assert_eq!(lower, "/l/2:/l/1");
    assert_eq!(lowerdir_string(&[]), "");
    assert_eq!(
        mount_data(&lower, "/t/upper", "/t/work"),
        "lowerdir=/l/2:/l/1,upperdir=/t/upper,workdir=/t/work"
    );
    assert_eq!(overlay_dir_name(4242), "boxed-overlay-4242");
}

#[test]
fn scratch_names_differ_per_run() {
    assert_ne!(overlay_dir_name(1), overlay_dir_name(10));
    assert_eq!(overlay_dir_name(0), "boxed-overlay-0");
}
