use courier::scheduler::jobs::JobTable;

#[test]
fn job_table_inserts_replaces_and_removes() {
    let mut t: JobTable<u32> = JobTable::new();
    assert_eq!(t.insert("daily".to_string(), 1), None);
    assert_eq!(t.insert("weekly".to_string(), 2), None);
    assert_eq!(t.insert("daily".to_string(), 3), Some(1));
    assert_eq!(t.get("daily"), Some(&3));
    assert_eq!(t.remove("daily"), Some(3));
    assert_eq!(t.get("daily"), None);
    assert_eq!(t.remove("daily"), None);
    assert_eq!(t.get("weekly"), Some(&2));
}

#[test]
fn job_table_rename_moves_entry() {
    let mut t: JobTable<u32> = JobTable::new();
    t.insert("a".to_string(), 1);
    t.insert("b".to_string(), 2);
    t.rename("a", "b");
    assert_eq!(t.get("a"), None);
    assert_eq!(t.get("b"), Some(&1));
    t.rename("missing", "c");
    assert_eq!(t.get("c"), None);
    t.rename("b", "b");
    assert_eq!(t.get("b"), Some(&1));
}
