use keykoff::config::{
    cascade_delete, cascade_rename, entry_name, find_by_name, resolve_entry_kind, kind_tag,
    default_hotkey_key, default_true, AppConfig, Entry, EntryKind, RunConfig, RunGroup,
};
use keykoff::groups::{flatten_group_to_programs, would_cycle};

fn make_program(name: &str) -> Entry {
    Entry::Program(RunConfig {
        name: name.into(),
        caption: String::new(),
        executable: format!("{}.exe", name),
        parameters: String::new(),
        working_directory: String::new(),
    })
}

fn make_group(name: &str, members: &[&str]) -> Entry {
    Entry::Group(RunGroup {
        name: name.into(),
        caption: String::new(),
        members: members.iter().map(|s| s.to_string()).collect(),
    })
}

fn members(e: &Entry) -> Vec<String> {
    match e {
        Entry::Group(g) => g.members.clone(),
        Entry::Program(_) => panic!("expected a group"),
    }
}

#[test]
fn find_by_name_returns_index_when_present() {
    let entries = vec![make_program("a"), make_group("g", &["a"]), make_program("b")];
    assert_eq!(find_by_name(&entries, "g"), Some(1));
    assert_eq!(find_by_name(&entries, "b"), Some(2));
}

#[test]
fn find_by_name_returns_none_when_missing() {
    let entries = vec![make_program("a")];
    assert_eq!(find_by_name(&entries, "missing"), None);
}

#[test]
fn find_by_name_returns_first_of_duplicates() {
    let entries = vec![make_program("x"), make_program("a"), make_group("a", &[])];
    assert_eq!(find_by_name(&entries, "a"), Some(1));
}

#[test]
fn cascade_rename_updates_group_members() {
    let mut entries = vec![
        make_program("a"),
        make_program("b"),
        make_group("g", &["a", "b"]),
    ];
    cascade_rename(&mut entries, "a", "a2");
    if let Entry::Group(g) = &entries[2] {
        assert_eq!(g.members, vec!["a2".to_string(), "b".to_string()]);
    } else {
        panic!("expected group at index 2");
    }
}

#[test]
fn cascade_rename_no_op_when_name_not_referenced() {
    let mut entries = vec![make_program("a"), make_group("g", &["b"])];
    cascade_rename(&mut entries, "a", "a2");
    if let Entry::Group(g) = &entries[1] {
        assert_eq!(g.members, vec!["b".to_string()]);
    }
}

#[test]
fn cascade_rename_updates_multiple_groups() {
    let mut entries = vec![
        make_program("a"),
        make_group("g1", &["a"]),
        make_group("g2", &["a", "x"]),
    ];
    cascade_rename(&mut entries, "a", "a2");
    if let Entry::Group(g) = &entries[1] { assert_eq!(g.members, vec!["a2".to_string()]); }
    if let Entry::Group(g) = &entries[2] { assert_eq!(g.members, vec!["a2".to_string(), "x".to_string()]); }
}

#[test]
fn cascade_rename_keeps_entry_names() {
    let mut entries = vec![make_program("a"), make_group("g", &["a"])];
    cascade_rename(&mut entries, "a", "b");
    assert_eq!(entry_name(&entries[0]), "a");
    assert_eq!(entry_name(&entries[1]), "g");
}

#[test]
fn cascade_rename_round_trip_restores_members() {
    let mut entries = vec![make_group("g1", &["a", "c", "a"]), make_group("g2", &["c"])];
    cascade_rename(&mut entries, "a", "z");
    assert_eq!(members(&entries[0]), vec!["z", "c", "z"]);
    cascade_rename(&mut entries, "z", "a");
    assert_eq!(members(&entries[0]), vec!["a", "c", "a"]);
    assert_eq!(members(&entries[1]), vec!["c"]);
}

#[test]
fn cascade_delete_removes_name_from_group_members() {
    let mut entries = vec![make_group("g", &["a", "b", "c"])];
    cascade_delete(&mut entries, "b");
    if let Entry::Group(g) = &entries[0] {
        assert_eq!(g.members, vec!["a".to_string(), "c".to_string()]);
    }
}

#[test]
fn cascade_delete_can_leave_group_empty() {
    let mut entries = vec![make_group("g", &["a"])];
    cascade_delete(&mut entries, "a");
    if let Entry::Group(g) = &entries[0] {
        assert!(g.members.is_empty());
    }
}

#[test]
fn cascade_delete_no_op_when_name_absent() {
    let mut entries = vec![make_group("g", &["a"])];
    cascade_delete(&mut entries, "z");
    if let Entry::Group(g) = &entries[0] {
        assert_eq!(g.members, vec!["a".to_string()]);
    }
}

#[test]
fn cascade_delete_twice_equals_once() {
    let mut entries = vec![make_group("g", &["a", "b", "a"]), make_program("a")];
    cascade_delete(&mut entries, "a");
    assert_eq!(members(&entries[0]), vec!["b"]);
    cascade_delete(&mut entries, "a");
    assert_eq!(members(&entries[0]), vec!["b"]);
    assert_eq!(entry_name(&entries[1]), "a");
}

#[test]
fn would_cycle_self_reference() {
    let entries = vec![make_group("g", &[])];
    assert!(would_cycle(&entries, "g", "g"));
}

#[test]
fn would_cycle_program_member_is_safe() {
    let entries = vec![make_program("a"), make_group("g", &[])];
    assert!(!would_cycle(&entries, "g", "a"));
}

#[test]
fn would_cycle_indirect() {
    let entries = vec![make_group("g1", &["g2"]), make_group("g2", &[])];
    assert!(would_cycle(&entries, "g2", "g1"));
}

#[test]
fn would_cycle_unrelated_group_is_safe() {
    let entries = vec![make_group("g1", &[]), make_group("g2", &[])];
    assert!(!would_cycle(&entries, "g1", "g2"));
}

#[test]
fn would_cycle_unknown_candidate_is_safe() {
    let entries = vec![make_group("g", &[])];
    assert!(!would_cycle(&entries, "g", "missing"));
}

#[test]
fn would_cycle_through_long_chain_and_existing_cycle() {
    let entries = vec![
        make_group("a", &["b"]),
        make_group("b", &["c", "b"]),
        make_group("c", &["d"]),
        make_group("d", &["target"]),
        make_group("target", &[]),
    ];
    assert!(would_cycle(&entries, "target", "a"));
    assert!(!would_cycle(&entries, "a", "target"));
}

#[test]
fn flatten_returns_indices_of_programs_only() {
    let entries = vec![
        make_program("a"),
        make_program("b"),
        make_group("g", &["a", "b"]),
    ];
    let result = flatten_group_to_programs(&entries, 2);
    assert_eq!(result, vec![0, 1]);
}

#[test]
fn flatten_dedups_programs_reachable_via_multiple_paths() {
    let entries = vec![
        make_program("a"),
        make_group("g1", &["a", "g2"]),
        make_group("g2", &["a"]),
    ];
    let result = flatten_group_to_programs(&entries, 1);
    assert_eq!(result, vec![0]);
}

#[test]
fn flatten_skips_unknown_member_names() {
    let entries = vec![make_program("a"), make_group("g", &["a", "missing"])];
    let result = flatten_group_to_programs(&entries, 1);
    assert_eq!(result, vec![0]);
}

#[test]
fn flatten_handles_cycles_without_infinite_loop() {
    let entries = vec![
        make_group("g1", &["g2"]),
        make_group("g2", &["g1"]),
    ];
    let result = flatten_group_to_programs(&entries, 0);
    assert_eq!(result, Vec::<usize>::new());
}

#[test]
fn flatten_called_on_program_index_returns_just_that_index() {
    let entries = vec![make_program("a")];
    let result = flatten_group_to_programs(&entries, 0);
    assert_eq!(result, vec![0]);
}

#[test]
fn flatten_out_of_range_is_empty() {
    let entries = vec![make_program("a")];
    assert!(flatten_group_to_programs(&entries, 5).is_empty());
}

#[test]
fn flatten_nested_groups_in_member_order() {
    let entries = vec![
        make_program("p1"),
        make_program("p2"),
        make_program("p3"),
        make_group("inner", &["p2", "p3"]),
        make_group("outer", &["p1", "inner", "p3"]),
    ];
    assert_eq!(flatten_group_to_programs(&entries, 4), vec![0, 1, 2]);
}

#[test]
fn flatten_goes_depth_first_before_later_members() {
    let entries = vec![
        make_program("a"),
        make_program("b"),
        make_program("c"),
        make_group("inner", &["c", "a"]),
        make_group("outer", &["inner", "b", "a"]),
    ];
    assert_eq!(flatten_group_to_programs(&entries, 4), vec![2, 0, 1]);
}

#[test]
fn missing_kind_resolves_to_program() {
    assert_eq!(resolve_entry_kind(None), Some(EntryKind::Program));
}

#[test]
fn kind_program_and_group_resolve() {
    assert_eq!(resolve_entry_kind(Some("program")), Some(EntryKind::Program));
    assert_eq!(resolve_entry_kind(Some("group")), Some(EntryKind::Group));
    assert_eq!(resolve_entry_kind(Some("Group")), None);
    assert_eq!(resolve_entry_kind(Some("")), None);
}

#[test]
fn kind_tags_round_trip() {
    assert_eq!(kind_tag(EntryKind::Program), "program");
    assert_eq!(kind_tag(EntryKind::Group), "group");
    assert_eq!(resolve_entry_kind(Some(kind_tag(EntryKind::Group))), Some(EntryKind::Group));
}

#[test]
fn default_config_values() {
    let c = AppConfig::default();
    assert!(c.entries.is_empty());
    assert_eq!(c.hotkey_key, "F10");
    assert!(c.hotkey_alt);
    assert!(!c.hotkey_ctrl);
    assert_eq!(default_hotkey_key(), "F10");
    assert!(default_true());
}
