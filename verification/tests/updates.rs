use makefile_checker::makefile_parser::{parse_makefile, read_vars};
use makefile_checker::makefile_updater::{apply_updates, backup_path, MakefileUpdate};

const MAKEFILE: &str = "include $(TOPDIR)/rules.mk\n\nPKG_NAME:=pkg\nPKG_VERSION:=1.0\n\
                        PKG_SOURCE_DATE:=2023-01-01\nPKG_SOURCE_VERSION:=abc\nPKG_HASH:=old\n";

#[test]
fn written_values_are_read_back() {
    let update = MakefileUpdate {
        pkg_version: Some("2.0".to_string()),
        pkg_source_version: Some("def".to_string()),
        pkg_source_date: Some("2024-02-02".to_string()),
        pkg_hash: Some("new".to_string()),
    };
    let mut changed = Vec::new();
    let text = apply_updates(MAKEFILE, &update, &mut changed);
    assert_eq!(changed, ["PKG_VERSION", "PKG_SOURCE_DATE", "PKG_SOURCE_VERSION", "PKG_HASH"]);
    let vars = read_vars(&text);
    assert_eq!(vars.get("PKG_VERSION").unwrap(), "2.0");
    assert_eq!(vars.get("PKG_SOURCE_VERSION").unwrap(), "def");
    assert_eq!(vars.get("PKG_SOURCE_DATE").unwrap(), "2024-02-02");
    assert_eq!(vars.get("PKG_HASH").unwrap(), "new");
    assert_eq!(vars.get("PKG_NAME").unwrap(), "pkg");
    assert_eq!(parse_makefile("p/Makefile", &text).unwrap().pkg_version, "2.0");
}

#[test]
fn lines_that_go_on_are_kept() {
    let content = "PKG_NAME:=pkg\r\nDEPENDS:=+a \\\r\n\t+b\r\nPKG_VERSION:=1.0\r\nifdef X\r\n\
                   PKG_VERSION:=$(Y)\r\nendif\r\n";
    let update =
        MakefileUpdate { pkg_version: Some("2.0".to_string()), ..MakefileUpdate::default() };
    let mut changed = Vec::new();
    let vars = read_vars(&apply_updates(content, &update, &mut changed));
    assert_eq!(vars.get("PKG_VERSION").unwrap(), "2.0");
    assert_eq!(vars.get("DEPENDS"), read_vars(content).get("DEPENDS"));
    assert_eq!(vars.get("DEPENDS").unwrap(), "+a  \t+b");
}

#[test]
fn only_what_is_asked_for_changes() {
    let update = MakefileUpdate { pkg_hash: Some("new".to_string()), ..MakefileUpdate::default() };
    let mut changed = Vec::new();
    let text = apply_updates(MAKEFILE, &update, &mut changed);
    assert_eq!(text, MAKEFILE.replace("old", "new"));
    assert_eq!(changed, ["PKG_HASH"]);
}

#[test]
fn update_without_values_keeps_the_text() {
    let mut changed = vec!["before".to_string()];
    let text = apply_updates("a\nb", &MakefileUpdate::default(), &mut changed);
    assert_eq!(text, "a\nb");
    assert_eq!(changed, ["before"]);
}

#[test]
fn derived_values_stay() {
    let update =
        MakefileUpdate { pkg_version: Some("2.0".to_string()), ..MakefileUpdate::default() };
    let mut changed = Vec::new();
    let line = "PKG_VERSION:=$(subst -,.,$(PKG_SOURCE_VERSION))\n";
    assert_eq!(apply_updates(line, &update, &mut changed), line);
    assert!(changed.is_empty());
}

#[test]
fn other_lines_stay() {
    let update =
        MakefileUpdate { pkg_version: Some("2.0".to_string()), ..MakefileUpdate::default() };
    let mut changed = Vec::new();
    let text = "PKG_VERSIONS:=1\n# PKG_VERSION:=1\n\tPKG_RELEASE:=1\n";
    assert_eq!(apply_updates(text, &update, &mut changed), text);
}

#[test]
fn carriage_returns_give_way() {
    let mut changed = Vec::new();
    assert_eq!(apply_updates("a\r\nb\r\n", &MakefileUpdate::default(), &mut changed), "a\nb\n");
}

#[test]
fn updating_twice_is_updating_once() {
    let update = MakefileUpdate {
        pkg_version: Some("2.0".to_string()),
        pkg_source_version: Some("v$(PKG_VERSION)".to_string()),
        pkg_hash: Some(String::new()),
        ..MakefileUpdate::default()
    };
    let texts = [
        MAKEFILE,
        "",
        "PKG_VERSION:=1",
        "  PKG_VERSION ?=  1  \r\nPKG_HASH =\r\nPKG_SOURCE_VERSION = x y\n\nlast",
    ];
    for text in texts {
        let mut changed = Vec::new();
        let once = apply_updates(text, &update, &mut changed);
        assert_eq!(apply_updates(&once, &update, &mut changed), once);
    }
}

#[test]
fn backups_stand_beside_the_file() {
    assert_eq!(backup_path("net/pkg/Makefile"), "net/pkg/Makefile.bak");
}
