use makefile_checker::makefile_parser::{detect_path_tag_prefix, detect_tag_template, TagTemplate};
use makefile_checker::tags::{
    considered_tags, extract_version_from_prefixed_tag, extract_version_from_tag, find_best_tag,
    newest_last_of, newest_of, tag_write_fields, GithubTag, GithubTagCommit,
};

fn tag(name: &str) -> GithubTag {
    GithubTag { name: name.to_string(), commit: GithubTagCommit { sha: format!("sha-{}", name) } }
}

fn custom(pattern: &str) -> TagTemplate {
    TagTemplate::Custom(pattern.to_string())
}

#[test]
fn newest_is_the_first_greatest() {
    let c: Vec<Option<String>> = vec![
        None,
        Some("1.2".to_string()),
        Some("1.10".to_string()),
        Some("1.10.0".to_string()),
        None,
    ];
    assert_eq!(newest_of(&c), Some(2));
    assert_eq!(newest_last_of(&c), Some(3));
    assert_eq!(newest_of(&vec![None]), None);
    assert_eq!(newest_of(&vec![]), None);
    assert_eq!(newest_last_of(&vec![]), None);
}

#[test]
fn best_tag_has_the_greatest_numbers() {
    let tags = vec![tag("v1.9.0"), tag("other"), tag("v1.10.0"), tag("v1.2.0")];
    let (best, version) = find_best_tag(&tags, &TagTemplate::WithV, "1.0").unwrap();
    assert_eq!(best.name, "v1.10.0");
    assert_eq!(version, "1.10.0");
    assert!(find_best_tag(&vec![tag("other")], &TagTemplate::Plain, "1.0").is_none());
}

#[test]
fn prereleases_are_not_stable() {
    let tags = vec![tag("v1.0"), tag("v1.1-rc1"), tag("v0.9")];
    let stable = considered_tags(&tags, false);
    let names: Vec<&str> = stable.iter().map(|t| t.name.as_str()).collect();
    assert_eq!(names, ["v1.0", "v0.9"]);
    assert_eq!(considered_tags(&tags, true).len(), 3);
}

#[test]
fn tags_lead_to_their_first_digit() {
    for (t, v) in [("release-1.2-3", "1.2-3"), ("1.2", "1.2"), ("stable", "stable"), ("", "")] {
        let once = extract_version_from_tag(t, &TagTemplate::Plain);
        assert_eq!(once, v);
        assert_eq!(extract_version_from_tag(&once, &TagTemplate::Plain), once);
    }
}

#[test]
fn tag_made_from_a_version_gives_it_back() {
    assert_eq!(extract_version_from_tag("v1.2.3", &TagTemplate::WithV), "1.2.3");
    assert_eq!(extract_version_from_tag("1.2.3", &TagTemplate::Plain), "1.2.3");
    assert_eq!(extract_version_from_tag("rel-1.2.3-x", &custom("rel-${VERSION}-x")), "1.2.3");
}

#[test]
fn detected_template_gives_the_version_back() {
    for (name, version) in [
        ("v1.2.3", "1.2.3"),
        ("1.2.3", "1.2.3"),
        ("release-1.2.3", "1.2.3"),
        ("curl-8_19_0", "8.19.0"),
    ] {
        let template = detect_tag_template(name, version);
        assert_eq!(extract_version_from_tag(name, &template), version);
    }
}

#[test]
fn dots_left_out_of_a_date_come_back() {
    let template = custom("1.${VERSION_NODOT}");
    assert_eq!(extract_version_from_tag("1.20260408", &template), "2026.04.08");
    assert_eq!(extract_version_from_tag("1.202604", &template), "2026.04");
    assert_eq!(extract_version_from_tag("1.2026", &template), "2026");
}

#[test]
fn tags_of_another_series_give_nothing() {
    assert_eq!(extract_version_from_tag("v2022.01", &custom("lf-${VERSION}")), "");
    assert_eq!(extract_version_from_tag("lf-1.0", &custom("lf-${VERSION}-end")), "");
}

#[test]
fn prefixes_are_stripped_from_plain_tags() {
    assert_eq!(extract_version_from_tag(".resctroot-1.6.13", &TagTemplate::Plain), "1.6.13");
    assert_eq!(extract_version_from_tag("nodigits", &TagTemplate::Plain), "nodigits");
}

#[test]
fn fields_to_write_for_a_tag() {
    assert_eq!(
        tag_write_fields("v1.2", "1.2", &TagTemplate::WithV),
        ("1.2".to_string(), None)
    );
    assert_eq!(
        tag_write_fields("1.2", "1.2", &TagTemplate::Plain),
        ("1.2".to_string(), None)
    );
    assert_eq!(
        tag_write_fields("lf-6.18.2-1.0.0", "6.18.2-1.0.0", &custom("lf-${VERSION}")),
        ("6.18.2.1.0.0".to_string(), Some("lf-6.18.2-1.0.0".to_string()))
    );
    assert_eq!(
        tag_write_fields("1.5-x", "5-x", &custom("1.${VERSION}")),
        ("5-x".to_string(), None)
    );
}

#[test]
fn versions_behind_a_path_prefix() {
    assert_eq!(extract_version_from_prefixed_tag("v1.2", ""), "1.2");
    assert_eq!(extract_version_from_prefixed_tag("sub/v1.2", "sub"), "1.2");
    assert_eq!(extract_version_from_prefixed_tag("sub-1.2", "sub"), "1.2");
    assert_eq!(extract_version_from_prefixed_tag("V0.21.00", "V"), "0.21.00");
    assert_eq!(extract_version_from_prefixed_tag("vother", "sub"), "other");
}

#[test]
fn path_prefixes_of_tags() {
    let prefix = |r: &str, v: &str| detect_path_tag_prefix(r, v);
    assert_eq!(
        prefix("client_release/8.0/8.0.4", "8.0.4").as_deref(),
        Some("client_release/")
    );
    assert_eq!(prefix("a/b/1.2", "1.2").as_deref(), Some("a/b/"));
    assert_eq!(prefix("sub/1.2.3", "1.2.3").as_deref(), Some("sub/"));
    assert_eq!(prefix("sub/v1.2.3", "1.2.3"), None);
    assert_eq!(prefix("1.2.3", "1.2.3"), None);
}
