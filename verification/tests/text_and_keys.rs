use keykoff::config::{AppConfig, RunConfig};
use keykoff::hotkey::{
    available_keys, code_from_name, ensure_modifier, hotkey_from_config, hotkey_label,
    modifiers_from_config, HotkeyModifiers, KeyCode,
};
use keykoff::launcher::{launch, spawn_failure, split_words};
use keykoff::text::{append_str, push_decimal, str_contains, str_eq, trim, unquote};
use keykoff::tray::tray_icon_rgba;

#[test]
fn trimming_and_unquoting() {
    assert_eq!(trim("  a b \t\n"), "a b");
    assert_eq!(trim("\u{3000}x\u{00a0}"), "x");
    assert_eq!(trim("   "), "");
    assert_eq!(unquote("\"\"x\"y\""), "x\"y");
    assert_eq!(unquote("\"\""), "");
}

#[test]
fn substring_and_equality() {
    assert!(str_contains("firefox", "ref"));
    assert!(str_contains("abc", ""));
    assert!(!str_contains("ab", "abc"));
    assert!(!str_contains("abc", "ac"));
    assert!(str_eq("é", "é"));
    assert!(!str_eq("a", "ab"));
    assert_eq!(append_str("ab", "cd"), "abcd");
}

#[test]
fn decimal_digits() {
    let mut s = String::from("n=");
    push_decimal(&mut s, 0);
    assert_eq!(s, "n=0");
    let mut s = String::new();
    push_decimal(&mut s, 1207);
    assert_eq!(s, "1207");
}

#[test]
fn key_names_select_keys() {
    assert_eq!(code_from_name("F1"), KeyCode::F1);
    assert_eq!(code_from_name("F12"), KeyCode::F12);
    assert_eq!(code_from_name("f5"), KeyCode::F10);
    assert_eq!(code_from_name("Escape"), KeyCode::F10);
    let keys = available_keys();
    assert_eq!(keys.len(), 12);
    assert_eq!(keys[0], "F1");
    assert_eq!(keys[11], "F12");
}

#[test]
fn hotkey_from_settings() {
    let mut c = AppConfig::default();
    c.hotkey_key = "F3".into();
    let h = hotkey_from_config(&c);
    assert_eq!(h.code, KeyCode::F3);
    assert_eq!(h.modifiers, Some(HotkeyModifiers { alt: true, ctrl: false }));
    c.hotkey_alt = false;
    assert_eq!(hotkey_from_config(&c).modifiers, None);
    c.hotkey_ctrl = true;
    assert_eq!(modifiers_from_config(&c), HotkeyModifiers { alt: false, ctrl: true });
}

#[test]
fn at_least_one_modifier_and_label() {
    let mut c = AppConfig::default();
    c.hotkey_alt = false;
    c.hotkey_ctrl = false;
    assert!(ensure_modifier(&mut c));
    assert!(c.hotkey_alt);
    assert!(!ensure_modifier(&mut c));
    assert_eq!(hotkey_label(&c), "Current hotkey: ALT+F10");
    c.hotkey_ctrl = true;
    assert_eq!(hotkey_label(&c), "Current hotkey: CTRL+ALT+F10");
    c.hotkey_alt = false;
    assert_eq!(hotkey_label(&c), "Current hotkey: CTRL+F10");
}

fn run_config(params: &str, wd: &str) -> RunConfig {
    RunConfig {
        name: "n".into(),
        caption: String::new(),
        executable: "tool.exe".into(),
        parameters: params.into(),
        working_directory: wd.into(),
    }
}

#[test]
fn parameters_split_at_whitespace() {
    assert_eq!(split_words("  -a  b\tc\n"), vec!["-a", "b", "c"]);
    assert!(split_words("").is_empty());
    assert!(split_words(" \t ").is_empty());
}

#[test]
fn launch_plans() {
    let plan = launch(&run_config("--x y", ""), false).ok().unwrap();
    assert_eq!(plan.executable, "tool.exe");
    assert_eq!(plan.args, vec!["--x", "y"]);
    assert_eq!(plan.working_directory, None);
    let plan = launch(&run_config("", "C:\\w"), true).ok().unwrap();
    assert!(plan.args.is_empty());
    assert_eq!(plan.working_directory, Some("C:\\w".to_string()));
    match launch(&run_config("", "C:\\gone"), false) {
        Err(msg) => assert_eq!(msg, "Working directory does not exist: C:\\gone"),
        Ok(_) => panic!("expected an error"),
    }
    assert_eq!(spawn_failure("x.exe", "not found"), "Failed to launch 'x.exe': not found");
}

#[test]
fn tray_icon_gradient() {
    let data = tray_icon_rgba();
    assert_eq!(data.len(), 32 * 32 * 4);
    assert_eq!(&data[0..4], &[0, 140, 180, 255]);
    let px = |x: usize, y: usize| &data[(y * 32 + x) * 4..(y * 32 + x) * 4 + 4];
    assert_eq!(px(31, 31), &[60, 233, 242, 255]);
    assert_eq!(px(10, 5), &[20, 155, 200, 255]);
}
