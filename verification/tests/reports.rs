use makefile_checker::config::OutputFormat;
use makefile_checker::i18n::Lang;
use makefile_checker::makefile_parser::parse_makefile;
use makefile_checker::reporter::{
    cell_style, count, detail_text, dir_name, hash_text, headers, mismatched, or_text, outdated,
    report_name, row_data, saves_csv, saves_xlsx, status, status_text, table_headers, table_row,
    CellStyle, CheckResult, Status,
};
use makefile_checker::snapshot::Snapshot;
use makefile_checker::upstream::{found_info, unknown_info};

fn result(name: &str, current: &str, latest: Option<&str>) -> CheckResult {
    let content = format!("PKG_NAME:={}\nPKG_VERSION:={}\n", name, current);
    let parsed = parse_makefile(&format!("feeds/{}/Makefile", name), &content).unwrap();
    let upstream = match latest {
        Some(v) => found_info(&parsed, v, "https://u", "b", true),
        None => unknown_info(&parsed, "why"),
    };
    CheckResult { parsed, upstream }
}

#[test]
fn statuses() {
    let mut r = result("p", "1.0", Some("2.0"));
    assert_eq!(status(&r.upstream), Status::Outdated);
    r.upstream.is_newer = true;
    assert_eq!(status(&r.upstream), Status::Newer);
    r.upstream.format_mismatch = true;
    assert_eq!(status(&r.upstream), Status::FormatMismatch);
    assert_eq!(status(&result("p", "1.0", Some("1.0")).upstream), Status::UpToDate);
    assert_eq!(status(&result("p", "1.0", None).upstream), Status::Unknown);
    let words: Vec<&str> = [
        Status::FormatMismatch,
        Status::Newer,
        Status::Outdated,
        Status::UpToDate,
        Status::Unknown,
    ]
    .iter()
    .map(|s| status_text(*s, Lang::En))
    .collect();
    for i in 0..words.len() {
        for j in 0..i {
            assert_ne!(words[i], words[j]);
        }
    }
    assert_ne!(hash_text(Some(true), Lang::En), hash_text(Some(false), Lang::En));
    assert_ne!(hash_text(None, Lang::En), hash_text(Some(false), Lang::En));
}

#[test]
fn rows_of_reports() {
    let mut r = result("p", "1.0", Some("2.0"));
    r.upstream.latest_tag = Some("v2.0".to_string());
    r.upstream.latest_commit = Some("0123456789abcdef".to_string());
    r.upstream.hash_mismatch = Some(false);
    let row = row_data(&r, Lang::En);
    assert_eq!(row.len(), headers(Lang::En).len());
    assert_eq!(row[0], "p");
    assert_eq!(row[1], "p");
    assert_eq!(row[2], "1.0");
    assert_eq!(row[3], "2.0");
    assert_eq!(row[4], status_text(Status::Outdated, Lang::En));
    assert_eq!(row[5], "v2.0 (01234567)");
    assert_eq!(row[6], "b");
    assert_eq!(row[7], hash_text(Some(false), Lang::En));
    assert_eq!(row[8], "0123456789abcdef");
    assert_eq!(row[9], "https://u");
    assert_eq!(row[10], "");
    assert_eq!(row[11], "feeds/p/Makefile");
    assert_eq!(
        headers(Lang::En),
        [
            "Package Name",
            "Directory",
            "Current Version",
            "Latest Version",
            "Status",
            "Latest Tag / Commit",
            "Backend",
            "Hash Status",
            "Latest Commit SHA",
            "Upstream URL",
            "Note / Error",
            "Makefile Path"
        ]
    );
    r.upstream.latest_tag = None;
    assert_eq!(row_data(&r, Lang::En)[5], "0123456789ab");
    let row = table_row(&result("p", "1.0", None).upstream, Lang::En);
    assert_eq!(row.len(), table_headers(Lang::En).len());
    assert_eq!((row[2].as_str(), row[4].as_str(), row[7].as_str()), ("-", "-", "why"));
    assert_ne!(headers(Lang::En), headers(Lang::Zh));
}

#[test]
fn directories_of_makefiles() {
    assert_eq!(dir_name("feeds/net/pkg/Makefile"), "pkg");
    assert_eq!(dir_name("Makefile"), "");
    assert_eq!(dir_name("/Makefile"), "");
    assert_eq!(or_text(&None, "x"), "x");
}

#[test]
fn styles_of_cells() {
    let mut r = result("p", "1.0", Some("2.0"));
    assert_eq!(cell_style(&r.upstream, 0), CellStyle::Of(Status::Outdated));
    assert_eq!(cell_style(&r.upstream, 7), CellStyle::Of(Status::Outdated));
    r.upstream.hash_mismatch = Some(true);
    assert_eq!(cell_style(&r.upstream, 7), CellStyle::HashMismatch);
    assert_eq!(cell_style(&r.upstream, 4), CellStyle::Of(Status::Outdated));
}

#[test]
fn counts_add_up() {
    let mut results = vec![
        result("a", "1.0", Some("2.0")),
        result("b", "1.0", Some("1.0")),
        result("c", "1.0", None),
        result("d", "1.0", Some("2.0")),
    ];
    results[1].upstream.hash_mismatch = Some(true);
    results[3].upstream.is_newer = true;
    let c = count(&results);
    assert_eq!((c.outdated, c.up_to_date, c.unknown, c.newer), (1, 1, 1, 1));
    assert_eq!((c.format_mismatches, c.hash_mismatches), (0, 1));
    assert_eq!(
        c.outdated + c.up_to_date + c.unknown + c.newer + c.format_mismatches,
        results.len()
    );
    assert_eq!(outdated(&results), [0, 3]);
    assert_eq!(mismatched(&results), [1]);
}

#[test]
fn details_of_the_summary() {
    let mut r = result("p", "1.0", Some("2.0"));
    assert_eq!(detail_text(&r.upstream), "");
    r.upstream.latest_tag = Some("v2.0".to_string());
    r.upstream.latest_commit = Some("0123456789abcdef".to_string());
    assert_eq!(detail_text(&r.upstream), " [tag: v2.0] [commit: 0123456789ab]");
}

#[test]
fn report_files() {
    assert!(saves_xlsx(OutputFormat::Xlsx) && saves_xlsx(OutputFormat::Both));
    assert!(!saves_xlsx(OutputFormat::Csv) && !saves_xlsx(OutputFormat::NoReport));
    assert!(saves_csv(OutputFormat::Csv) && saves_csv(OutputFormat::Both));
    assert!(!saves_csv(OutputFormat::Xlsx) && !saves_csv(OutputFormat::NoReport));
    assert_eq!(report_name("20240102_030405", "csv"), "makefile_checker_20240102_030405.csv");
}

#[test]
fn noted_versions_are_no_changes() {
    let mut s = Snapshot::default();
    assert!(s.is_first_run());
    assert!(s.has_changed("a", "1.0"));
    s.update("a", "1.0");
    assert!(!s.is_first_run());
    assert!(!s.has_changed("a", "1.0"));
    assert!(s.has_changed("a", "2.0"));
}

#[test]
fn same_results_are_no_changes() {
    let results = vec![result("a", "1.0", Some("2.0")), result("b", "1.0", None)];
    let mut s = Snapshot::default();
    assert_eq!(s.changes(&results), [0]);
    s.apply_results(&results);
    assert!(s.changes(&results).is_empty());
    let later = vec![result("a", "1.0", None), result("b", "1.0", Some("3.0"))];
    assert_eq!(s.changes(&later), [1]);
    s.apply_results(&later);
    assert_eq!(s.versions.get("a").as_deref(), Some("2.0"));
    assert_eq!(s.versions.get("b").as_deref(), Some("3.0"));
    assert_eq!(s.versions.entries().len(), 2);
}
