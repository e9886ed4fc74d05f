use iwd_unzip::config::{effective_workers, Job};
use iwd_unzip::paths::resolve_output;
use iwd_unzip::strings::{last_index_of, str_ends_with, str_eq};

#[test]
fn join_inserts_one_separator() {
    assert_eq!(resolve_output("out", "a/b.cfg"), "out/a/b.cfg");
}

#[test]
fn join_keeps_existing_separator() {
    assert_eq!(resolve_output("out/", "a"), "out/a");
}

#[test]
fn join_with_empty_root() {
    assert_eq!(resolve_output("", "a"), "a");
}

#[test]
fn join_with_empty_entry() {
    assert_eq!(resolve_output("out", ""), "out/");
}

#[test]
fn absolute_entry_replaces_root() {
    assert_eq!(resolve_output("out", "/abs/x"), "/abs/x");
}

#[test]
fn traversal_segments_kept_verbatim() {
    // no sanitization: a climbing entry resolves outside the root
    assert_eq!(resolve_output("out", "../x"), "out/../x");
}

#[test]
fn string_equality_is_exact() {
    assert!(str_eq("all", "all"));
    assert!(!str_eq("all", "al"));
    assert!(!str_eq("all", "All"));
    assert!(str_eq("", ""));
}

#[test]
fn suffix_test_is_exact() {
    assert!(str_ends_with("a.cfg", ".cfg"));
    assert!(str_ends_with("a.cfg", ""));
    assert!(!str_ends_with("a.cfg", ".txt"));
    assert!(!str_ends_with("cfg", "a.cfg"));
}

#[test]
fn last_occurrence_is_found() {
    assert_eq!(last_index_of("a/b/c", '/'), Some(3));
    assert_eq!(last_index_of("abc", '/'), None);
}

#[test]
fn worker_sentinel_selects_available_units() {
    assert_eq!(effective_workers(0, 8), 8);
    assert_eq!(effective_workers(3, 8), 3);
    assert_eq!(effective_workers(1, 1), 1);
}

#[test]
fn job_holds_its_configuration() {
    let j = Job::new("src".to_string(), "out".to_string(), "all".to_string(), 4);
    assert_eq!(j.source, "src");
    assert_eq!(j.output, "out");
    assert_eq!(j.filter, "all");
    assert_eq!(j.workers, 4);
}
