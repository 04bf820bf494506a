use dir_rank::{grab_objects, greet, score, score_folded, sidebar_locations, ObjectType, RawEntry};

fn file(name: &str, size: Option<u64>) -> RawEntry {
    RawEntry {
        path: format!("/dir/{}", name),
        name: name.to_string(),
        is_dir: false,
        size,
        modified: Some("1700000000".to_string()),
    }
}

fn folder(name: &str, size: Option<u64>) -> RawEntry {
    RawEntry {
        path: format!("/dir/{}", name),
        name: name.to_string(),
        is_dir: true,
        size,
        modified: Some("1700000000".to_string()),
    }
}

#[test]
fn score_exact_match_is_zero_case_insensitive() {
    assert_eq!(score("Report", Some("report")), Some(0));
    assert_eq!(score("REPORT", Some("RePoRt")), Some(0));
    assert_eq!(score_folded("report", "report"), Some(0));
}

#[test]
fn score_substring_is_one() {
    assert_eq!(score_folded("report.docx", "report"), Some(1));
    assert_eq!(score("old_Report.docx", Some("report")), Some(1));
}

#[test]
fn score_prefix_is_caught_by_substring_tier() {
    // A name that starts with the query also contains it, so the prefix
    // tier never produces its own score of 2.
    assert_eq!(score_folded("reportx", "report"), Some(1));
    assert_eq!(score_folded("report_old", "report"), Some(1));
}

#[test]
fn score_fuzzy_fallback_adds_distance() {
    // distance("report", "reprot") is 2, threshold is 6 / 2 + 2 = 5.
    assert_eq!(score_folded("report", "reprot"), Some(5));
}

#[test]
fn score_beyond_threshold_is_no_match() {
    // distance("xyz.txt", "report") is 6, over the threshold of 5.
    assert_eq!(score_folded("xyz.txt", "report"), None);
}

#[test]
fn score_absent_or_empty_query_is_zero() {
    assert_eq!(score("anything", None), Some(0));
    assert_eq!(score("anything", Some("")), Some(0));
}

#[test]
fn score_lowercases_both_sides() {
    assert_eq!(score("REPORT.DOCX", Some("Report")), Some(1));
}

#[test]
fn ranked_listing_filters_and_orders() {
    let entries = vec![
        file("Report.docx", Some(10)),
        file("report_old.docx", Some(20)),
        folder("Reports", None),
        file("xyz.txt", Some(30)),
    ];
    let out = grab_objects(entries, Some("report"), false);
    let names: Vec<&str> = out.iter().map(|o| o.name.as_str()).collect();
    assert_eq!(names, vec!["Report.docx", "report_old.docx", "Reports"]);
    assert_eq!(out[0].relevance, 1);
    assert_eq!(out[1].relevance, 1);
    assert_eq!(out[2].relevance, 1);
}

#[test]
fn transposed_query_keeps_close_names() {
    let out = grab_objects(vec![file("report.txt", Some(1))], Some("reprot"), false);
    // distance("report.txt", "reprot") is 5, exactly the threshold.
    assert_eq!(out.len(), 1);
    assert_eq!(out[0].relevance, 8);

    let out = grab_objects(vec![file("report", Some(1))], Some("reprot"), false);
    assert_eq!(out.len(), 1);
    assert_eq!(out[0].relevance, 5);
}

#[test]
fn empty_query_preserves_enumeration_order() {
    let entries = vec![file("b", None), file("a", None), file("c", None)];
    let out = grab_objects(entries, None, false);
    let names: Vec<&str> = out.iter().map(|o| o.name.as_str()).collect();
    assert_eq!(names, vec!["b", "a", "c"]);
    assert!(out.iter().all(|o| o.relevance == 0));

    let entries = vec![file("b", None), file("a", None), file("c", None)];
    let out = grab_objects(entries, Some(""), false);
    let names: Vec<&str> = out.iter().map(|o| o.name.as_str()).collect();
    assert_eq!(names, vec!["b", "a", "c"]);
}

#[test]
fn folders_never_carry_a_size() {
    // Even when the metadata reported one for the underlying path.
    let out = grab_objects(vec![folder("stuff", Some(4096)), file("a.txt", Some(7))], None, false);
    assert_eq!(out.len(), 2);
    assert!(matches!(out[0].object_type, ObjectType::Folder));
    assert_eq!(out[0].size, None);
    assert!(matches!(out[1].object_type, ObjectType::File));
    assert_eq!(out[1].size, Some(7));
}

#[test]
fn folder_only_listing_drops_files() {
    let out = grab_objects(vec![file("a.txt", Some(1)), folder("sub", None)], None, true);
    assert_eq!(out.len(), 1);
    assert_eq!(out[0].name, "sub");
    assert!(matches!(out[0].object_type, ObjectType::Folder));
}

#[test]
fn ties_keep_their_enumeration_order() {
    let entries = vec![file("ax", None), file("bx", None), file("x", None)];
    let out = grab_objects(entries, Some("x"), false);
    let names: Vec<&str> = out.iter().map(|o| o.name.as_str()).collect();
    // "x" is the exact match; "ax" and "bx" tie at score 1 and keep their
    // relative input order.
    assert_eq!(names, vec!["x", "ax", "bx"]);
    assert_eq!(out[0].relevance, 0);
    assert_eq!(out[1].relevance, 1);
    assert_eq!(out[2].relevance, 1);
}

#[test]
fn hopeless_query_excludes_everything() {
    let entries = vec![file("aaa", None), folder("bbb", None)];
    let out = grab_objects(entries, Some("zzzzzzzzzz"), false);
    assert!(out.is_empty());
}

#[test]
fn undecodable_names_degrade_but_stay_listed() {
    let entry = RawEntry {
        path: "/dir/???".to_string(),
        name: String::new(),
        is_dir: false,
        size: None,
        modified: None,
    };
    let out = grab_objects(vec![entry], None, false);
    assert_eq!(out.len(), 1);
    assert_eq!(out[0].name, "");
    assert_eq!(out[0].relevance, 0);
}

#[test]
fn entry_paths_and_metadata_carry_over() {
    let out = grab_objects(vec![file("a.txt", Some(42))], None, false);
    assert_eq!(out[0].path, "/dir/a.txt");
    assert_eq!(out[0].modified, Some("1700000000".to_string()));
}

#[test]
fn sidebar_has_the_standard_locations() {
    let items = sidebar_locations("/home/u", false, false);
    assert_eq!(items.len(), 8);
    assert_eq!(items[0].name, "Home");
    assert_eq!(items[0].path, "/home/u");
    assert_eq!(items[1].name, "Desktop");
    assert_eq!(items[1].path, "/home/u/Desktop");
    assert_eq!(items[4].name, "Applications");
    assert_eq!(items[4].path, "/Applications");
    assert_eq!(items[7].name, "Movies");
    assert_eq!(items[7].path, "/home/u/Movies");
}

#[test]
fn sidebar_adds_optional_services_in_order() {
    let items = sidebar_locations("/home/u", true, true);
    assert_eq!(items.len(), 10);
    assert_eq!(items[8].name, "Dropbox");
    assert_eq!(items[8].path, "/home/u/Dropbox");
    assert_eq!(items[9].name, "iCloud Drive");
    assert_eq!(items[9].path, "/home/u/Library/Mobile Documents/com~apple~CloudDocs");

    let items = sidebar_locations("/home/u", false, true);
    assert_eq!(items.len(), 9);
    assert_eq!(items[8].name, "iCloud Drive");
}

#[test]
fn greeting_mentions_the_name() {
    assert_eq!(greet("World"), "Hello, World! You've been greeted from Rust!");
}

#[test]
fn child_path_joins_with_slash() {
    assert_eq!(dir_rank::paths::child_path("/a/b", "c.txt"), "/a/b/c.txt");
}
