use keykoff::app::{AppMode, ConfigTab, KeykoffApp, MenuAction, ViewportLayout};
use keykoff::config::{entry_name, AppConfig, Entry, RunConfig, RunGroup};
use keykoff::dialogs::{DialogCommand, GroupDialogInput, ProgramDialogInput};
use keykoff::overlay::{OverlayDecision, OverlayInput};
use keykoff::search::{matching_indices, suggestion_names};
use keykoff::settings::{entry_summary, strip_extended_prefix, ListAction};

fn program(name: &str, caption: &str) -> Entry {
    Entry::Program(RunConfig {
        name: name.into(),
        caption: caption.into(),
        executable: format!("{}.exe", name),
        parameters: String::new(),
        working_directory: String::new(),
    })
}

fn group(name: &str, members: &[&str]) -> Entry {
    Entry::Group(RunGroup {
        name: name.into(),
        caption: String::new(),
        members: members.iter().map(|s| s.to_string()).collect(),
    })
}

fn app_with(entries: Vec<Entry>) -> KeykoffApp {
    let mut config = AppConfig::default();
    config.entries = entries;
    KeykoffApp::new(config)
}

fn names(app: &KeykoffApp) -> Vec<String> {
    app.config.entries.iter().map(|e| entry_name(e).to_string()).collect()
}

fn members_at(app: &KeykoffApp, i: usize) -> Vec<String> {
    match &app.config.entries[i] {
        Entry::Group(g) => g.members.clone(),
        Entry::Program(_) => panic!("expected a group"),
    }
}

fn no_input() -> OverlayInput {
    OverlayInput {
        enter: false,
        ctrl_enter: false,
        escape: false,
        down: false,
        up: false,
        number: None,
        clicked: None,
        secondary_clicked: None,
    }
}

fn no_group_input(app: &KeykoffApp) -> GroupDialogInput {
    GroupDialogInput {
        suggestions: app.group_suggestions(),
        up: false,
        down: false,
        enter: false,
        escape: false,
        suggestion_clicked: None,
        remove: None,
        save_clicked: false,
        cancel_clicked: false,
        delete_clicked: false,
    }
}

#[test]
fn new_app_starts_hidden_and_empty() {
    let app = app_with(vec![program("a", "")]);
    assert_eq!(app.mode, AppMode::Idle);
    assert!(app.mode_changed);
    assert!(!app.needs_focus);
    assert!(app.search_text.is_empty());
    assert!(app.dialog_error.is_none());
    assert_eq!(app.config_tab, ConfigTab::Commands);
    assert_eq!(ConfigTab::default(), ConfigTab::Commands);
}

#[test]
fn entering_input_clears_search() {
    let mut app = app_with(vec![program("alpha", "")]);
    app.search_text = "al".into();
    app.update_filtered_results();
    app.selected_index = 0;
    app.set_mode(AppMode::Input);
    assert!(app.search_text.is_empty());
    assert!(app.filtered_indices.is_empty());
    assert_eq!(app.selected_index, 0);
    assert!(app.needs_focus);
    assert_eq!(app.take_mode_change(), Some(ViewportLayout::Overlay));
    assert_eq!(app.take_mode_change(), None);
}

#[test]
fn layouts_follow_modes() {
    let mut app = app_with(vec![]);
    app.set_mode(AppMode::ConfigList);
    assert_eq!(app.take_mode_change(), Some(ViewportLayout::Settings));
    app.set_mode(AppMode::NewGroup);
    assert!(app.needs_focus);
    assert_eq!(app.take_mode_change(), Some(ViewportLayout::Dialog));
    app.set_mode(AppMode::Idle);
    assert_eq!(app.take_mode_change(), Some(ViewportLayout::Hidden));
}

#[test]
fn search_matches_names_ignoring_case() {
    let mut app = app_with(vec![program("Firefox", ""), program("Terminal", ""), group("FIRE-group", &[])]);
    app.search_text = "fIrE".into();
    app.update_filtered_results();
    assert_eq!(app.filtered_indices, vec![0, 2]);
    app.search_text = "min".into();
    app.update_filtered_results();
    assert_eq!(app.filtered_indices, vec![1]);
    app.search_text = String::new();
    app.update_filtered_results();
    assert!(app.filtered_indices.is_empty());
}

#[test]
fn search_resets_selection_past_results() {
    let mut app = app_with(vec![program("aa", ""), program("ab", ""), program("b", "")]);
    app.search_text = "a".into();
    app.update_filtered_results();
    app.selected_index = 1;
    app.update_filtered_results();
    assert_eq!(app.selected_index, 1);
    app.search_text = "b".into();
    app.update_filtered_results();
    assert_eq!(app.filtered_indices, vec![1, 2]);
    app.search_text = "aa".into();
    app.update_filtered_results();
    assert_eq!(app.selected_index, 0);
}

#[test]
fn overlay_rows_are_numbered() {
    let mut app = app_with(vec![program("vscode", "editor"), program("vim", "")]);
    app.search_text = "v".into();
    app.update_filtered_results();
    assert_eq!(app.overlay_rows(), vec!["1  vscode - editor".to_string(), "2  vim".to_string()]);
    assert_eq!(app.visible_count(), 2);
}

#[test]
fn overlay_lists_at_most_nine() {
    let entries: Vec<Entry> = (0..12).map(|i| program(&format!("p{}", i), "")).collect();
    let mut app = app_with(entries);
    app.search_text = "p".into();
    app.update_filtered_results();
    assert_eq!(app.filtered_indices.len(), 12);
    assert_eq!(app.visible_count(), 9);
    let rows = app.overlay_rows();
    assert_eq!(rows.len(), 9);
    assert_eq!(rows[8], "9  p8");
}

#[test]
fn overlay_arrows_move_within_visible_rows() {
    let mut app = app_with(vec![program("a1", ""), program("a2", "")]);
    app.set_mode(AppMode::Input);
    app.search_text = "a".into();
    app.update_filtered_results();
    let mut down = no_input();
    down.down = true;
    assert_eq!(app.handle_overlay_input(down), OverlayDecision::Nothing);
    assert_eq!(app.selected_index, 1);
    let mut down = no_input();
    down.down = true;
    app.handle_overlay_input(down);
    assert_eq!(app.selected_index, 1);
    let mut up = no_input();
    up.up = true;
    app.handle_overlay_input(up);
    assert_eq!(app.selected_index, 0);
}

#[test]
fn overlay_enter_launches_selected_and_number_launches_position() {
    let mut app = app_with(vec![program("a1", ""), program("x", ""), program("a2", "")]);
    app.set_mode(AppMode::Input);
    app.search_text = "a".into();
    app.update_filtered_results();
    let mut enter = no_input();
    enter.enter = true;
    assert_eq!(app.handle_overlay_input(enter), OverlayDecision::Launch(0));
    let mut number = no_input();
    number.number = Some(1);
    assert_eq!(app.handle_overlay_input(number), OverlayDecision::Launch(2));
    let mut number = no_input();
    number.number = Some(5);
    assert_eq!(app.handle_overlay_input(number), OverlayDecision::Nothing);
}

#[test]
fn overlay_enter_without_results_opens_new_program() {
    let mut app = app_with(vec![program("a", "")]);
    app.set_mode(AppMode::Input);
    app.search_text = "zed".into();
    app.update_filtered_results();
    let mut enter = no_input();
    enter.enter = true;
    assert_eq!(app.handle_overlay_input(enter), OverlayDecision::NewConfig);
    assert_eq!(app.mode, AppMode::NewConfig);
    assert_eq!(app.dialog_name, "zed");
    assert!(app.dialog_executable.is_empty());
    assert!(app.dialog_return_to_idle);
}

#[test]
fn overlay_ctrl_enter_edits_selected() {
    let mut app = app_with(vec![program("a", "cap"), group("ag", &["a"])]);
    app.set_mode(AppMode::Input);
    app.search_text = "a".into();
    app.update_filtered_results();
    app.selected_index = 1;
    let mut ce = no_input();
    ce.enter = true;
    ce.ctrl_enter = true;
    assert_eq!(app.handle_overlay_input(ce), OverlayDecision::Edit(1));
    assert_eq!(app.mode, AppMode::EditGroup { index: 1 });
    assert_eq!(app.dialog_members, vec!["a".to_string()]);
    assert!(app.dialog_return_to_idle);
}

#[test]
fn overlay_right_click_edits_program_and_escape_hides() {
    let mut app = app_with(vec![program("a", "cap")]);
    app.set_mode(AppMode::Input);
    let mut rc = no_input();
    rc.secondary_clicked = Some(0);
    rc.clicked = Some(0);
    assert_eq!(app.handle_overlay_input(rc), OverlayDecision::Edit(0));
    assert_eq!(app.mode, AppMode::EditConfig { index: 0 });
    assert_eq!(app.dialog_caption, "cap");
    assert_eq!(app.dialog_executable, "a.exe");
    let mut esc = no_input();
    esc.escape = true;
    assert_eq!(app.handle_overlay_input(esc), OverlayDecision::Hide);
    assert_eq!(app.mode, AppMode::Idle);
}

#[test]
fn failed_program_launch_opens_edit_dialog() {
    let mut app = app_with(vec![program("a", "")]);
    app.do_launch(0, Some("boom".to_string()));
    assert_eq!(app.mode, AppMode::EditConfig { index: 0 });
    assert_eq!(app.dialog_error, Some("boom".to_string()));
    assert_eq!(app.dialog_name, "a");
    assert!(app.dialog_return_to_idle);
    let mut app = app_with(vec![program("a", ""), group("g", &["a"])]);
    app.set_mode(AppMode::Input);
    app.do_launch(1, Some("ignored".to_string()));
    assert_eq!(app.mode, AppMode::Idle);
    app.do_launch(0, None);
    assert_eq!(app.mode, AppMode::Idle);
}

#[test]
fn hotkey_toggles_and_refocuses() {
    let mut app = app_with(vec![]);
    app.on_hotkey_pressed();
    assert_eq!(app.mode, AppMode::Input);
    app.search_text = "typed".into();
    app.needs_focus = false;
    app.on_hotkey_pressed();
    assert_eq!(app.mode, AppMode::Input);
    assert_eq!(app.search_text, "typed");
    assert!(app.needs_focus);
    assert!(app.take_focus_request());
    assert!(!app.take_focus_request());
}

#[test]
fn only_presses_of_the_bound_hotkey_count() {
    let mut app = app_with(vec![]);
    app.on_hotkey_event(true, false);
    assert_eq!(app.mode, AppMode::Idle);
    app.on_hotkey_event(false, true);
    assert_eq!(app.mode, AppMode::Idle);
    app.on_hotkey_event(true, true);
    assert_eq!(app.mode, AppMode::Input);
}

#[test]
fn menu_and_close_handling() {
    let mut app = app_with(vec![]);
    app.on_menu(MenuAction::EditConfigurations);
    assert_eq!(app.mode, AppMode::ConfigList);
    assert!(!app.on_close_requested());
    assert_eq!(app.mode, AppMode::Idle);
    app.on_menu(MenuAction::OpenInput);
    assert_eq!(app.mode, AppMode::Input);
    app.on_menu(MenuAction::Quit);
    assert!(app.quit_requested);
    assert!(app.on_close_requested());
}

#[test]
fn save_program_requires_name_and_executable() {
    let mut app = app_with(vec![]);
    app.set_mode(AppMode::NewConfig);
    app.dialog_name = "   ".into();
    app.dialog_executable = "x.exe".into();
    assert!(!app.save_dialog_entry());
    assert_eq!(app.dialog_error, Some("Name is required.".to_string()));
    app.dialog_name = "x".into();
    app.dialog_executable = " \t".into();
    assert!(!app.save_dialog_entry());
    assert_eq!(app.dialog_error, Some("Executable path is required.".to_string()));
    assert!(app.config.entries.is_empty());
}

#[test]
fn save_program_trims_and_unquotes() {
    let mut app = app_with(vec![]);
    app.set_mode(AppMode::NewConfig);
    app.dialog_name = "  term ".into();
    app.dialog_caption = " shell ".into();
    app.dialog_executable = "  \"C:\\Program Files\\t.exe\" ".into();
    app.dialog_parameters = " -a  -b ".into();
    app.dialog_working_directory = " C:\\ ".into();
    assert!(app.save_dialog_entry());
    match &app.config.entries[0] {
        Entry::Program(p) => {
            assert_eq!(p.name, "term");
            assert_eq!(p.caption, "shell");
            assert_eq!(p.executable, "C:\\Program Files\\t.exe");
            assert_eq!(p.parameters, "-a  -b");
            assert_eq!(p.working_directory, "C:\\");
        }
        Entry::Group(_) => panic!("expected a program"),
    }
}

#[test]
fn save_program_refuses_taken_name() {
    let mut app = app_with(vec![program("a", ""), group("g", &["a"])]);
    app.set_mode(AppMode::NewConfig);
    app.dialog_name = "g".into();
    app.dialog_executable = "x".into();
    assert!(!app.save_dialog_entry());
    assert_eq!(app.dialog_error, Some("Name already used by another entry.".to_string()));
    assert_eq!(app.config.entries.len(), 2);
}

#[test]
fn renaming_a_program_renames_group_references() {
    let mut app = app_with(vec![program("a", ""), group("g", &["a", "b"]), program("b", "")]);
    app.populate_program_dialog_from_index(0);
    app.set_mode(AppMode::EditConfig { index: 0 });
    app.dialog_name = "a2".into();
    assert!(app.save_dialog_entry());
    assert_eq!(names(&app), vec!["a2", "g", "b"]);
    assert_eq!(members_at(&app, 1), vec!["a2", "b"]);
}

#[test]
fn editing_keeps_own_name_allowed() {
    let mut app = app_with(vec![program("a", "")]);
    app.populate_program_dialog_from_index(0);
    app.set_mode(AppMode::EditConfig { index: 0 });
    app.dialog_caption = "new caption".into();
    assert!(app.save_dialog_entry());
    assert_eq!(app.config.entries.len(), 1);
}

#[test]
fn group_save_rules() {
    let mut app = app_with(vec![program("a", ""), group("g", &["a"])]);
    app.clear_group_dialog_fields();
    app.set_mode(AppMode::NewGroup);
    app.dialog_name = "h".into();
    assert!(!app.save_group_dialog());
    assert_eq!(app.dialog_error, Some("At least one member is required.".to_string()));
    app.dialog_members = vec!["a".to_string()];
    app.dialog_name = " g ".into();
    assert!(!app.save_group_dialog());
    assert_eq!(app.dialog_error, Some("Name already used by another entry.".to_string()));
    app.dialog_name = " h ".into();
    assert!(app.save_group_dialog());
    assert_eq!(names(&app), vec!["a", "g", "h"]);
}

#[test]
fn renaming_a_group_renames_references() {
    let mut app = app_with(vec![program("a", ""), group("inner", &["a"]), group("outer", &["inner"])]);
    app.populate_group_dialog_from_index(1);
    app.set_mode(AppMode::EditGroup { index: 1 });
    app.dialog_name = "core".into();
    assert!(app.save_group_dialog());
    assert_eq!(names(&app), vec!["a", "core", "outer"]);
    assert_eq!(members_at(&app, 2), vec!["core"]);
}

#[test]
fn deleting_removes_references() {
    let mut app = app_with(vec![program("a", ""), program("b", ""), group("g", &["a", "b", "a"])]);
    app.delete_entry(0);
    assert_eq!(names(&app), vec!["b", "g"]);
    assert_eq!(members_at(&app, 1), vec!["b"]);
}

#[test]
fn dialog_leaves_to_origin_and_forgets_it() {
    let mut app = app_with(vec![program("a", "")]);
    app.dialog_return_to_idle = true;
    app.set_mode(AppMode::NewConfig);
    app.leave_dialog();
    assert_eq!(app.mode, AppMode::Idle);
    assert!(!app.dialog_return_to_idle);
    app.set_mode(AppMode::NewConfig);
    app.leave_dialog();
    assert_eq!(app.mode, AppMode::ConfigList);
    app.dialog_return_to_idle = true;
    app.cancel_dialog();
    assert_eq!(app.mode, AppMode::Idle);
    assert!(!app.dialog_return_to_idle);
}

#[test]
fn program_dialog_commands() {
    let mut app = app_with(vec![program("a", ""), group("g", &["a"])]);
    app.set_mode(AppMode::EditConfig { index: 0 });
    let input = ProgramDialogInput { save_clicked: false, cancel_clicked: false, delete_clicked: false, escape: false, enter: true };
    assert_eq!(app.handle_program_dialog_input(&input), DialogCommand::Save);
    let input = ProgramDialogInput { save_clicked: false, cancel_clicked: false, delete_clicked: true, escape: false, enter: false };
    assert_eq!(app.handle_program_dialog_input(&input), DialogCommand::Delete);
    assert_eq!(names(&app), vec!["g"]);
    assert!(members_at(&app, 0).is_empty());
    assert_eq!(app.mode, AppMode::ConfigList);
    app.set_mode(AppMode::NewConfig);
    let input = ProgramDialogInput { save_clicked: false, cancel_clicked: false, delete_clicked: false, escape: true, enter: false };
    assert_eq!(app.handle_program_dialog_input(&input), DialogCommand::Cancel);
    assert_eq!(app.mode, AppMode::Idle);
}

#[test]
fn save_failure_is_shown() {
    let mut app = app_with(vec![]);
    app.set_mode(AppMode::NewConfig);
    app.finish_save(Err("disk full".to_string()));
    assert_eq!(app.dialog_error, Some("Failed to save: disk full".to_string()));
    assert_eq!(app.mode, AppMode::NewConfig);
    app.finish_save(Ok(()));
    assert_eq!(app.mode, AppMode::ConfigList);
}

#[test]
fn suggestions_exclude_self_members_and_cycles() {
    let mut app = app_with(vec![
        program("dev-a", ""),
        program("dev-b", ""),
        group("devs", &["dev-a"]),
        group("outer-dev", &["devs"]),
    ]);
    app.populate_group_dialog_from_index(2);
    app.set_mode(AppMode::EditGroup { index: 2 });
    app.dialog_member_input = "  DEV ".into();
    assert_eq!(app.group_suggestions(), vec!["dev-b".to_string()]);
    app.dialog_member_input = "   ".into();
    assert!(app.group_suggestions().is_empty());
}

#[test]
fn suggestions_are_capped_at_eight() {
    let mut entries: Vec<Entry> = (0..10).map(|i| program(&format!("p{}", i), "")).collect();
    entries.push(group("g", &[]));
    let mut app = app_with(entries);
    app.populate_group_dialog_from_index(10);
    app.set_mode(AppMode::EditGroup { index: 10 });
    app.dialog_member_input = "p".into();
    let s = app.group_suggestions();
    assert_eq!(s.len(), 8);
    assert_eq!(s[0], "p0");
    assert_eq!(s[7], "p7");
}

#[test]
fn group_dialog_keyboard_flow() {
    let mut app = app_with(vec![program("alpha", ""), program("alps", ""), program("beta", "")]);
    app.clear_group_dialog_fields();
    app.set_mode(AppMode::NewGroup);
    app.dialog_name = "g".into();
    app.dialog_member_input = "al".into();
    let mut down = no_group_input(&app);
    down.down = true;
    assert_eq!(app.handle_group_dialog_input(down), DialogCommand::Stay);
    assert_eq!(app.dialog_suggestion_index, 1);
    let mut enter = no_group_input(&app);
    enter.enter = true;
    assert_eq!(app.handle_group_dialog_input(enter), DialogCommand::Stay);
    assert_eq!(app.dialog_members, vec!["alps".to_string()]);
    assert!(app.dialog_member_input.is_empty());
    let mut enter = no_group_input(&app);
    enter.enter = true;
    assert_eq!(app.handle_group_dialog_input(enter), DialogCommand::Save);
    app.dialog_member_input = "be".into();
    let mut esc = no_group_input(&app);
    esc.escape = true;
    assert_eq!(app.handle_group_dialog_input(esc), DialogCommand::Stay);
    assert!(app.dialog_member_input.is_empty());
    let mut esc = no_group_input(&app);
    esc.escape = true;
    assert_eq!(app.handle_group_dialog_input(esc), DialogCommand::Cancel);
    assert_eq!(app.mode, AppMode::Idle);
}

#[test]
fn group_dialog_click_does_not_double_add() {
    let mut app = app_with(vec![program("alpha", ""), program("beta", "")]);
    app.clear_group_dialog_fields();
    app.set_mode(AppMode::NewGroup);
    app.dialog_name = "g".into();
    app.dialog_member_input = "a".into();
    let mut click = no_group_input(&app);
    click.suggestion_clicked = Some("beta".to_string());
    click.enter = true;
    assert_eq!(app.handle_group_dialog_input(click), DialogCommand::Stay);
    assert_eq!(app.dialog_members, vec!["beta".to_string()]);
    let mut rm = no_group_input(&app);
    rm.remove = Some(0);
    app.handle_group_dialog_input(rm);
    assert!(app.dialog_members.is_empty());
}

#[test]
fn list_actions_open_dialogs_and_delete() {
    let mut app = app_with(vec![program("a", ""), group("g", &["a"])]);
    app.set_mode(AppMode::ConfigList);
    assert!(!app.apply_list_action(ListAction::Edit(1)));
    assert_eq!(app.mode, AppMode::EditGroup { index: 1 });
    assert!(!app.apply_list_action(ListAction::NewProgram));
    assert_eq!(app.mode, AppMode::NewConfig);
    assert!(app.dialog_name.is_empty());
    assert!(!app.apply_list_action(ListAction::NewGroup));
    assert_eq!(app.mode, AppMode::NewGroup);
    assert!(app.apply_list_action(ListAction::Delete(0)));
    assert_eq!(names(&app), vec!["g"]);
    assert!(members_at(&app, 0).is_empty());
}

#[test]
fn entry_summaries() {
    assert_eq!(entry_summary(&program("a", "")), "-> a.exe");
    assert_eq!(entry_summary(&group("g", &[])), "-> (empty)");
    assert_eq!(entry_summary(&group("g", &["x"])), "-> 1 member");
    let many: Vec<String> = (0..12).map(|i| format!("m{}", i)).collect();
    let refs: Vec<&str> = many.iter().map(|s| s.as_str()).collect();
    assert_eq!(entry_summary(&group("g", &refs)), "-> 12 members");
}

#[test]
fn extended_prefix_is_stripped() {
    assert_eq!(strip_extended_prefix("\\\\?\\C:\\keykoff.exe"), "C:\\keykoff.exe");
    assert_eq!(strip_extended_prefix("C:\\keykoff.exe"), "C:\\keykoff.exe");
    assert_eq!(strip_extended_prefix("\\\\?"), "\\\\?");
}

fn no_group_reaches_itself(app: &KeykoffApp) -> bool {
    app.config.entries.iter().all(|e| match e {
        Entry::Group(g) => g
            .members
            .iter()
            .all(|m| !keykoff::groups::would_cycle(&app.config.entries, &g.name, m)),
        Entry::Program(_) => true,
    })
}

#[test]
fn saving_suggested_members_keeps_groups_acyclic() {
    let mut app = app_with(vec![
        program("a", ""),
        group("g1", &["a"]),
        group("g2", &["g1"]),
        group("g3", &["g2"]),
    ]);
    assert!(no_group_reaches_itself(&app));
    app.populate_group_dialog_from_index(1);
    app.set_mode(AppMode::EditGroup { index: 1 });
    app.dialog_member_input = "g".into();
    // g2 and g3 reach g1, so neither is offered.
    assert!(app.group_suggestions().is_empty());
    app.dialog_member_input = "a".into();
    assert!(app.group_suggestions().is_empty());

    app.clear_group_dialog_fields();
    app.set_mode(AppMode::NewGroup);
    app.dialog_name = "g4".into();
    app.dialog_member_input = "g".into();
    let offered = app.group_suggestions();
    assert_eq!(offered, vec!["g1".to_string(), "g2".to_string(), "g3".to_string()]);
    app.dialog_members = offered;
    assert!(app.save_group_dialog());
    assert!(no_group_reaches_itself(&app));
    assert_eq!(names(&app), vec!["a", "g1", "g2", "g3", "g4"]);

    // Renaming a referenced group carries its references along, still without cycles.
    app.populate_group_dialog_from_index(1);
    app.set_mode(AppMode::EditGroup { index: 1 });
    app.dialog_name = "core".into();
    assert!(app.save_group_dialog());
    assert!(no_group_reaches_itself(&app));
    assert_eq!(members_at(&app, 2), vec!["core"]);
    assert_eq!(members_at(&app, 4), vec!["core", "g2", "g3"]);
}

#[test]
fn closing_an_overlay_dialog_does_not_leak_its_origin() {
    let mut app = app_with(vec![program("a", ""), program("b", "")]);
    app.open_edit(0);
    assert!(app.dialog_return_to_idle);
    // Closed with the window's close button, not cancelled.
    assert!(!app.on_close_requested());
    assert_eq!(app.mode, AppMode::Idle);
    app.on_menu(MenuAction::EditConfigurations);
    app.apply_list_action(ListAction::Edit(1));
    assert!(!app.dialog_return_to_idle);
    assert!(app.save_dialog_entry());
    app.finish_save(Ok(()));
    assert_eq!(app.mode, AppMode::ConfigList);

    app.open_edit(0);
    app.on_close_requested();
    app.apply_list_action(ListAction::NewProgram);
    assert!(!app.dialog_return_to_idle);
    app.open_edit(0);
    app.on_close_requested();
    app.apply_list_action(ListAction::NewGroup);
    assert!(!app.dialog_return_to_idle);
}

#[test]
fn save_refusals_come_before_the_edited_position() {
    let mut app = app_with(vec![program("a", "")]);
    app.set_mode(AppMode::EditConfig { index: 5 });
    app.dialog_name = "  ".into();
    assert!(!app.save_dialog_entry());
    assert_eq!(app.dialog_error, Some("Name is required.".to_string()));
    app.dialog_name = "b".into();
    assert!(!app.save_dialog_entry());
    assert_eq!(app.dialog_error, Some("Executable path is required.".to_string()));
    app.dialog_name = "a".into();
    app.dialog_executable = "a.exe".into();
    assert!(!app.save_dialog_entry());
    assert_eq!(app.dialog_error, Some("Name already used by another entry.".to_string()));
    app.set_mode(AppMode::EditGroup { index: 5 });
    app.dialog_members = vec!["a".to_string()];
    assert!(!app.save_group_dialog());
    assert_eq!(app.dialog_error, Some("Name already used by another entry.".to_string()));
    assert_eq!(names(&app), vec!["a"]);
}

#[test]
fn group_dialog_acts_on_the_suggestions_shown_at_frame_start() {
    let mut app = app_with(vec![program("alpha", ""), program("alps", ""), program("beta", "")]);
    app.clear_group_dialog_fields();
    app.set_mode(AppMode::NewGroup);
    app.dialog_name = "g".into();
    app.dialog_member_input = "al".into();
    let mut enter = no_group_input(&app);
    assert_eq!(enter.suggestions, vec!["alpha".to_string(), "alps".to_string()]);
    enter.enter = true;
    // The frame's typing reaches the input before the keys are handled.
    app.dialog_member_input = "alps".into();
    assert_eq!(app.group_suggestions(), vec!["alps".to_string()]);
    assert_eq!(app.handle_group_dialog_input(enter), DialogCommand::Stay);
    assert_eq!(app.dialog_members, vec!["alpha".to_string()]);
}

#[test]
fn matching_takes_lowered_names_and_query() {
    let names = vec!["foo".to_string(), "bar".to_string(), "food".to_string()];
    assert_eq!(matching_indices(&names, "fo"), vec![0, 2]);
    assert_eq!(matching_indices(&names, ""), vec![0, 1, 2]);
    assert!(matching_indices(&names, "x").is_empty());
    // The names come lower-cased; the matching itself compares as given.
    assert!(matching_indices(&["Foo".to_string()], "fo").is_empty());
}

#[test]
fn suggestion_names_filter_in_entry_order() {
    let entries = vec![
        program("Dev-A", ""),
        program("dev-b", ""),
        group("devs", &["Dev-A"]),
        group("outer", &["devs"]),
    ];
    let lowered: Vec<String> = entries.iter().map(|e| entry_name(e).to_lowercase()).collect();
    let members = vec!["Dev-A".to_string()];
    assert_eq!(
        suggestion_names(&entries, &lowered, &members, "devs", "dev"),
        vec!["dev-b".to_string()]
    );
    assert_eq!(
        suggestion_names(&entries, &lowered, &Vec::new(), "new", "dev"),
        vec!["Dev-A".to_string(), "dev-b".to_string(), "devs".to_string()]
    );
}
