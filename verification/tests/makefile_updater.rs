use makefile_checker::makefile_updater::{apply_updates, MakefileUpdate};

#[test]
fn test_replace_pkg_version() {
    let src = "PKG_VERSION:=1.2.3\n";
    let upd = MakefileUpdate { pkg_version: Some("1.3.0".into()), ..Default::default() };
    let mut ch = vec![];
    let out = apply_updates(src, &upd, &mut ch);
    assert_eq!(out, "PKG_VERSION:=1.3.0\n");
    assert_eq!(ch, ["PKG_VERSION"]);
}

#[test]
fn test_replace_pkg_hash() {
    let src = "PKG_HASH:=aabbcc\n";
    let upd = MakefileUpdate { pkg_hash: Some("ddeeff".into()), ..Default::default() };
    let mut ch = vec![];
    let out = apply_updates(src, &upd, &mut ch);
    assert_eq!(out, "PKG_HASH:=ddeeff\n");
    assert_eq!(ch, ["PKG_HASH"]);
}

#[test]
fn test_replace_with_spacing() {
    let src = "PKG_VERSION  :=  2.0.0\n";
    let upd = MakefileUpdate { pkg_version: Some("3.0.0".into()), ..Default::default() };
    let mut ch = vec![];
    let out = apply_updates(src, &upd, &mut ch);
    assert_eq!(out, "PKG_VERSION:=  3.0.0\n");
    assert!(ch.contains(&"PKG_VERSION".to_string()));
}

#[test]
fn test_derived_source_version_not_overwritten() {
    // lua-libmodbus: PKG_SOURCE_VERSION:=v$(PKG_VERSION) is derived,
    // must not be replaced with a literal even when write_pkg_source_version is set.
    let src = "PKG_VERSION:=0.7\nPKG_SOURCE_VERSION:=v$(PKG_VERSION)\n";
    let upd = MakefileUpdate {
        pkg_version: Some("0.8".into()),
        pkg_source_version: Some("v0.8".into()),
        ..Default::default()
    };
    let mut ch = vec![];
    let out = apply_updates(src, &upd, &mut ch);
    assert!(out.contains("PKG_VERSION:=0.8"), "PKG_VERSION should update");
    assert!(out.contains("PKG_SOURCE_VERSION:=v$(PKG_VERSION)"),
        "derived PKG_SOURCE_VERSION must not be replaced with literal");
    assert!(!ch.contains(&"PKG_SOURCE_VERSION".to_string()),
        "PKG_SOURCE_VERSION must not appear in changed list");
}

#[test]
fn test_no_change_when_not_requested() {
    let src = "PKG_VERSION:=1.0\nPKG_HASH:=abc\n";
    let upd = MakefileUpdate { pkg_version: Some("2.0".into()), ..Default::default() };
    let mut ch = vec![];
    let out = apply_updates(src, &upd, &mut ch);
    assert!(out.contains("PKG_VERSION:=2.0"));
    assert!(out.contains("PKG_HASH:=abc")); // unchanged
    assert_eq!(ch, ["PKG_VERSION"]);
}
