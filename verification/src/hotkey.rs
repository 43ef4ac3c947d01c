//! The global hotkey: which key and modifiers the settings select.

use vstd::prelude::*;
use crate::config::AppConfig;
use crate::text::{append_str, str_eq};

verus! {

/// The keys a hotkey can use.
#[derive(PartialEq, Eq, Structural, Clone, Copy, Debug)]
pub enum KeyCode {
    F1,
    F2,
    F3,
    F4,
    F5,
    F6,
    F7,
    F8,
    F9,
    F10,
    F11,
    F12,
}

/// The names of the keys offered for the hotkey, in menu order.
pub fn available_keys() -> (r: Vec<&'static str>)
    ensures
        r@.len() == 12,
        forall|i: int| 0 <= i < 12 ==> (#[trigger] r@[i])@ == key_name(key_at(i)),
{
    let r = vec!["F1", "F2", "F3", "F4", "F5", "F6", "F7", "F8", "F9", "F10", "F11", "F12"];
    r
}

/// The key at a menu position.
pub open spec fn key_at(i: int) -> KeyCode {
    if i == 0 {
        KeyCode::F1
    } else if i == 1 {
        KeyCode::F2
    } else if i == 2 {
        KeyCode::F3
    } else if i == 3 {
        KeyCode::F4
    } else if i == 4 {
        KeyCode::F5
    } else if i == 5 {
        KeyCode::F6
    } else if i == 6 {
        KeyCode::F7
    } else if i == 7 {
        KeyCode::F8
    } else if i == 8 {
        KeyCode::F9
    } else if i == 9 {
        KeyCode::F10
    } else if i == 10 {
        KeyCode::F11
    } else {
        KeyCode::F12
    }
}

/// The name of a key.
pub open spec fn key_name(k: KeyCode) -> Seq<char> {
    match k {
        KeyCode::F1 => "F1"@,
        KeyCode::F2 => "F2"@,
        KeyCode::F3 => "F3"@,
        KeyCode::F4 => "F4"@,
        KeyCode::F5 => "F5"@,
        KeyCode::F6 => "F6"@,
        KeyCode::F7 => "F7"@,
        KeyCode::F8 => "F8"@,
        KeyCode::F9 => "F9"@,
        KeyCode::F10 => "F10"@,
        KeyCode::F11 => "F11"@,
        KeyCode::F12 => "F12"@,
    }
}

/// The key a name selects: `F1` to `F12` name their key, anything else selects F10.
pub open spec fn spec_code_from_name(name: Seq<char>) -> KeyCode {
    if name == "F1"@ {
        KeyCode::F1
    } else if name == "F2"@ {
        KeyCode::F2
    } else if name == "F3"@ {
        KeyCode::F3
    } else if name == "F4"@ {
        KeyCode::F4
    } else if name == "F5"@ {
        KeyCode::F5
    } else if name == "F6"@ {
        KeyCode::F6
    } else if name == "F7"@ {
        KeyCode::F7
    } else if name == "F8"@ {
        KeyCode::F8
    } else if name == "F9"@ {
        KeyCode::F9
    } else if name == "F10"@ {
        KeyCode::F10
    } else if name == "F11"@ {
        KeyCode::F11
    } else if name == "F12"@ {
        KeyCode::F12
    } else {
        KeyCode::F10
    }
}

/// Returns the key a name selects (see `spec_code_from_name`).
pub fn code_from_name(name: &str) -> (r: KeyCode)
    ensures
        r == spec_code_from_name(name@),
{
    if str_eq(name, "F1") {
        KeyCode::F1
    } else if str_eq(name, "F2") {
        KeyCode::F2
    } else if str_eq(name, "F3") {
        KeyCode::F3
    } else if str_eq(name, "F4") {
        KeyCode::F4
    } else if str_eq(name, "F5") {
        KeyCode::F5
    } else if str_eq(name, "F6") {
        KeyCode::F6
    } else if str_eq(name, "F7") {
        KeyCode::F7
    } else if str_eq(name, "F8") {
        KeyCode::F8
    } else if str_eq(name, "F9") {
        KeyCode::F9
    } else if str_eq(name, "F10") {
        KeyCode::F10
    } else if str_eq(name, "F11") {
        KeyCode::F11
    } else if str_eq(name, "F12") {
        KeyCode::F12
    } else {
        KeyCode::F10
    }
}

/// The modifier keys held with the hotkey's key.
#[derive(PartialEq, Eq, Structural, Clone, Copy, Debug)]
pub struct HotkeyModifiers {
    pub alt: bool,
    pub ctrl: bool,
}

/// A hotkey: modifiers (none when neither is selected) and a key.
#[derive(PartialEq, Eq, Structural, Clone, Copy, Debug)]
pub struct Hotkey {
    pub modifiers: Option<HotkeyModifiers>,
    pub code: KeyCode,
}

/// The modifiers the settings select.
pub fn modifiers_from_config(config: &AppConfig) -> (r: HotkeyModifiers)
    ensures
        r.alt == config.hotkey_alt,
        r.ctrl == config.hotkey_ctrl,
{
    let mut mods = HotkeyModifiers { alt: false, ctrl: false };
    if config.hotkey_alt {
        mods.alt = true;
    }
    if config.hotkey_ctrl {
        mods.ctrl = true;
    }
    mods
}

/// The hotkey the settings select: their modifiers (none when neither ALT nor
/// CTRL is selected) with the key their key name selects.
pub fn hotkey_from_config(config: &AppConfig) -> (r: Hotkey)
    ensures
        r.code == spec_code_from_name(config.hotkey_key@),
        r.modifiers == if config.hotkey_alt || config.hotkey_ctrl {
            Some(HotkeyModifiers { alt: config.hotkey_alt, ctrl: config.hotkey_ctrl })
        } else {
            None
        },
{
    let mods = modifiers_from_config(config);
    let code = code_from_name(config.hotkey_key.as_str());
    Hotkey {
        modifiers: if !mods.alt && !mods.ctrl {
            None
        } else {
            Some(mods)
        },
        code,
    }
}

/// Makes sure at least one modifier is selected, choosing ALT when none is.
/// Returns whether the settings changed.
pub fn ensure_modifier(config: &mut AppConfig) -> (changed: bool)
    ensures
        final(config).hotkey_alt || final(config).hotkey_ctrl,
        changed == (!old(config).hotkey_alt && !old(config).hotkey_ctrl),
        final(config).hotkey_alt == (old(config).hotkey_alt || changed),
        final(config).hotkey_ctrl == old(config).hotkey_ctrl,
        final(config).hotkey_key == old(config).hotkey_key,
        final(config).entries == old(config).entries,
{
    if !config.hotkey_alt && !config.hotkey_ctrl {
        config.hotkey_alt = true;
        true
    } else {
        false
    }
}

/// The words shown for the selected modifiers.
pub open spec fn modifiers_label(alt: bool, ctrl: bool) -> Seq<char> {
    if alt && ctrl {
        "CTRL+ALT"@
    } else if ctrl {
        "CTRL"@
    } else {
        "ALT"@
    }
}

/// The line describing the current hotkey, such as `Current hotkey: ALT+F10`.
pub fn hotkey_label(config: &AppConfig) -> (r: String)
    ensures
        r@ == "Current hotkey: "@ + modifiers_label(config.hotkey_alt, config.hotkey_ctrl) + "+"@
            + config.hotkey_key@,
{
    let mods = if config.hotkey_alt && config.hotkey_ctrl {
        "CTRL+ALT"
    } else if config.hotkey_ctrl {
        "CTRL"
    } else {
        "ALT"
    };
    let a = append_str("Current hotkey: ", mods);
    let b = append_str(a.as_str(), "+");
    let r = append_str(b.as_str(), config.hotkey_key.as_str());
    assert(r@ =~= "Current hotkey: "@ + modifiers_label(config.hotkey_alt, config.hotkey_ctrl) + "+"@
        + config.hotkey_key@);
    r
}

/// Every key offered is selected by its own name: the name of key `k`
/// selects `k`, so the hotkey is bound to exactly the key chosen.
pub proof fn lemma_key_name_selects_its_key(k: KeyCode)
    ensures
        spec_code_from_name(key_name(k)) == k,
{
    reveal_strlit("F1");
    reveal_strlit("F2");
    reveal_strlit("F3");
    reveal_strlit("F4");
    reveal_strlit("F5");
    reveal_strlit("F6");
    reveal_strlit("F7");
    reveal_strlit("F8");
    reveal_strlit("F9");
    reveal_strlit("F10");
    reveal_strlit("F11");
    reveal_strlit("F12");
    match k {
        KeyCode::F1 => {

        },
        KeyCode::F2 => {
            assert("F2"@[1] != "F1"@[1]);
        },
        KeyCode::F3 => {
            assert("F3"@[1] != "F1"@[1]);
            assert("F3"@[1] != "F2"@[1]);
        },
        KeyCode::F4 => {
            assert("F4"@[1] != "F1"@[1]);
            assert("F4"@[1] != "F2"@[1]);
            assert("F4"@[1] != "F3"@[1]);
        },
        KeyCode::F5 => {
            assert("F5"@[1] != "F1"@[1]);
            assert("F5"@[1] != "F2"@[1]);
            assert("F5"@[1] != "F3"@[1]);
            assert("F5"@[1] != "F4"@[1]);
        },
        KeyCode::F6 => {
            assert("F6"@[1] != "F1"@[1]);
            assert("F6"@[1] != "F2"@[1]);
            assert("F6"@[1] != "F3"@[1]);
            assert("F6"@[1] != "F4"@[1]);
            assert("F6"@[1] != "F5"@[1]);
        },
        KeyCode::F7 => {
            assert("F7"@[1] != "F1"@[1]);
            assert("F7"@[1] != "F2"@[1]);
            assert("F7"@[1] != "F3"@[1]);
            assert("F7"@[1] != "F4"@[1]);
            assert("F7"@[1] != "F5"@[1]);
            assert("F7"@[1] != "F6"@[1]);
        },
        KeyCode::F8 => {
            assert("F8"@[1] != "F1"@[1]);
            assert("F8"@[1] != "F2"@[1]);
            assert("F8"@[1] != "F3"@[1]);
            assert("F8"@[1] != "F4"@[1]);
            assert("F8"@[1] != "F5"@[1]);
            assert("F8"@[1] != "F6"@[1]);
            assert("F8"@[1] != "F7"@[1]);
        },
        KeyCode::F9 => {
            assert("F9"@[1] != "F1"@[1]);
            assert("F9"@[1] != "F2"@[1]);
            assert("F9"@[1] != "F3"@[1]);
            assert("F9"@[1] != "F4"@[1]);
            assert("F9"@[1] != "F5"@[1]);
            assert("F9"@[1] != "F6"@[1]);
            assert("F9"@[1] != "F7"@[1]);
            assert("F9"@[1] != "F8"@[1]);
        },
        KeyCode::F10 => {
            assert("F10"@.len() != "F1"@.len());
            assert("F10"@.len() != "F2"@.len());
            assert("F10"@.len() != "F3"@.len());
            assert("F10"@.len() != "F4"@.len());
            assert("F10"@.len() != "F5"@.len());
            assert("F10"@.len() != "F6"@.len());
            assert("F10"@.len() != "F7"@.len());
            assert("F10"@.len() != "F8"@.len());
            assert("F10"@.len() != "F9"@.len());
        },
        KeyCode::F11 => {
            assert("F11"@.len() != "F1"@.len());
            assert("F11"@.len() != "F2"@.len());
            assert("F11"@.len() != "F3"@.len());
            assert("F11"@.len() != "F4"@.len());
            assert("F11"@.len() != "F5"@.len());
            assert("F11"@.len() != "F6"@.len());
            assert("F11"@.len() != "F7"@.len());
            assert("F11"@.len() != "F8"@.len());
            assert("F11"@.len() != "F9"@.len());
            assert("F11"@[2] != "F10"@[2]);
        },
        KeyCode::F12 => {
            assert("F12"@.len() != "F1"@.len());
            assert("F12"@.len() != "F2"@.len());
            assert("F12"@.len() != "F3"@.len());
            assert("F12"@.len() != "F4"@.len());
            assert("F12"@.len() != "F5"@.len());
            assert("F12"@.len() != "F6"@.len());
            assert("F12"@.len() != "F7"@.len());
            assert("F12"@.len() != "F8"@.len());
            assert("F12"@.len() != "F9"@.len());
            assert("F12"@[2] != "F10"@[2]);
            assert("F12"@[2] != "F11"@[2]);
        },
    }
}

/// Each of the twelve keys offered, by position, is selected by the name offered there.
pub proof fn lemma_offered_names_select_their_keys(i: int)
    requires
        0 <= i < 12,
    ensures
        spec_code_from_name(key_name(key_at(i))) == key_at(i),
{
    lemma_key_name_selects_its_key(key_at(i));
}

/// A name that names none of the offered keys selects F10, the default key.
pub proof fn lemma_unknown_name_selects_f10(name: Seq<char>)
    requires
        forall|k: KeyCode| name != #[trigger] key_name(k),
    ensures
        spec_code_from_name(name) == KeyCode::F10,
{
    assert(name != key_name(KeyCode::F1));
    assert(name != key_name(KeyCode::F2));
    assert(name != key_name(KeyCode::F3));
    assert(name != key_name(KeyCode::F4));
    assert(name != key_name(KeyCode::F5));
    assert(name != key_name(KeyCode::F6));
    assert(name != key_name(KeyCode::F7));
    assert(name != key_name(KeyCode::F8));
    assert(name != key_name(KeyCode::F9));
    assert(name != key_name(KeyCode::F11));
    assert(name != key_name(KeyCode::F12));
}

} // verus!
