use iwd_unzip::extract::{plan_archive, plan_entry, plan_run, ArchiveListing, EntryAction};

fn write_path(a: &EntryAction) -> &str {
    match a {
        EntryAction::WriteFile(p) => p.as_str(),
        _ => panic!("expected a file write"),
    }
}

fn dir_path(a: &EntryAction) -> &str {
    match a {
        EntryAction::MakeDir(p) => p.as_str(),
        _ => panic!("expected a directory"),
    }
}

fn same_action(a: &EntryAction, b: &EntryAction) -> bool {
    match (a, b) {
        (EntryAction::Skip, EntryAction::Skip) => true,
        (EntryAction::MakeDir(p), EntryAction::MakeDir(q)) => p == q,
        (EntryAction::WriteFile(p), EntryAction::WriteFile(q)) => p == q,
        _ => false,
    }
}

#[test]
fn filter_cfg_scenario() {
    let names = vec!["a.cfg".to_string(), "b.txt".to_string(), "dir/c.cfg".to_string()];
    let plan = plan_archive("out", ".cfg", &names);
    assert_eq!(plan.len(), 3);
    assert_eq!(write_path(&plan[0]), "out/a.cfg");
    assert!(matches!(plan[1], EntryAction::Skip));
    assert_eq!(write_path(&plan[2]), "out/dir/c.cfg");
}

#[test]
fn no_filter_keeps_every_entry() {
    let names = vec!["a.cfg".to_string(), "b.txt".to_string()];
    let plan = plan_archive("out", "all", &names);
    assert_eq!(write_path(&plan[0]), "out/a.cfg");
    assert_eq!(write_path(&plan[1]), "out/b.txt");
}

#[test]
fn suffix_without_dot_matches() {
    let a = plan_entry("out", "cfg", "a.cfg");
    assert_eq!(write_path(&a), "out/a.cfg");
}

#[test]
fn filter_literal_all_only_disables() {
    // a filter that is itself a suffix still filters
    let a = plan_entry("out", ".txt", "a.cfg");
    assert!(matches!(a, EntryAction::Skip));
}

#[test]
fn dir_marker_makes_directory() {
    let a = plan_entry("out", "all", "dir/");
    assert_eq!(dir_path(&a), "out/dir/");
    let again = plan_entry("out", "all", "dir/");
    assert!(same_action(&a, &again));
}

#[test]
fn dir_marker_respects_filter() {
    let a = plan_entry("out", ".cfg", "dir/");
    assert!(matches!(a, EntryAction::Skip));
}

#[test]
fn file_count_matches_retained_entries() {
    let names = vec![
        "a.cfg".to_string(),
        "b.txt".to_string(),
        "dir/".to_string(),
        "dir/c.cfg".to_string(),
    ];
    let plan = plan_archive("out", ".cfg", &names);
    let files = plan.iter().filter(|a| matches!(a, EntryAction::WriteFile(_))).count();
    assert_eq!(files, 2);
}

#[test]
fn replanning_is_identical() {
    let names = vec!["a.cfg".to_string(), "dir/".to_string(), "b.txt".to_string()];
    let first = plan_archive("out", "all", &names);
    let second = plan_archive("out", "all", &names);
    assert_eq!(first.len(), second.len());
    for (a, b) in first.iter().zip(second.iter()) {
        assert!(same_action(a, b));
    }
}

#[test]
fn unreadable_archive_contributes_nothing() {
    let first = ArchiveListing::Entries(vec!["a.cfg".to_string()]);
    let second = ArchiveListing::Unreadable;
    let third = ArchiveListing::Entries(vec!["c.cfg".to_string(), "d.txt".to_string()]);
    let plans = plan_run("out", "all", &vec![first, second, third]);
    assert_eq!(plans.len(), 3);
    assert_eq!(plans[0].len(), 1);
    assert_eq!(write_path(&plans[0][0]), "out/a.cfg");
    assert_eq!(plans[1].len(), 0);
    assert_eq!(plans[2].len(), 2);
    assert_eq!(write_path(&plans[2][0]), "out/c.cfg");
    assert_eq!(write_path(&plans[2][1]), "out/d.txt");
}
