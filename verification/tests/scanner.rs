use iwd_unzip::scan::{path_has_extension, path_is_archive, scan_filter};

#[test]
fn archives_found_at_any_depth() {
    assert!(path_is_archive("a.iwd"));
    assert!(path_is_archive("d1/a.iwd"));
    assert!(path_is_archive("d1/d2/d3/a.iwd"));
}

#[test]
fn non_archives_rejected() {
    assert!(!path_is_archive("a.zip"));
    assert!(!path_is_archive("iwd"));
    assert!(!path_is_archive("a.iwdx"));
    assert!(!path_is_archive("a.IWD"));
    assert!(!path_is_archive("dir.iwd/f.txt"));
    assert!(!path_is_archive("a."));
    assert!(!path_is_archive(""));
}

#[test]
fn leading_dot_is_no_extension() {
    // a component whose only dot starts it has no extension
    assert!(!path_is_archive(".iwd"));
    assert!(!path_is_archive("d1/.iwd"));
    assert!(path_is_archive("d1/a.b.iwd"));
}

#[test]
fn extension_test_is_general() {
    assert!(path_has_extension("x/y.tar", "tar"));
    assert!(!path_has_extension("x/y.tar", "gz"));
    assert!(!path_has_extension("x/y", "tar"));
}

#[test]
fn scan_keeps_archives_in_order() {
    let paths = vec![
        "root/a.iwd".to_string(),
        "root/notes.txt".to_string(),
        "root/d1/b.iwd".to_string(),
        "root/d1/d2/d3/c.iwd".to_string(),
        "root/d1/c.zip".to_string(),
    ];
    let found = scan_filter(&paths);
    assert_eq!(found, vec![
        "root/a.iwd".to_string(),
        "root/d1/b.iwd".to_string(),
        "root/d1/d2/d3/c.iwd".to_string(),
    ]);
}

#[test]
fn scan_of_no_archives_is_empty() {
    let paths = vec!["a.txt".to_string(), "b/c.zip".to_string()];
    let found = scan_filter(&paths);
    assert!(found.is_empty());
}
