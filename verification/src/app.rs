//! The launcher's interaction state: which window is showing, what the
//! overlay and dialogs hold, and how events move between them.

use vstd::prelude::*;
use crate::config::{AppConfig, Entry, EntryView};
use crate::config::copy_strings;

verus! {

/// Which window the launcher shows.
#[derive(PartialEq, Eq, Structural, Clone, Copy, Debug)]
pub enum AppMode {
    Idle,
    Input,
    NewConfig,
    EditConfig { index: usize },
    NewGroup,
    EditGroup { index: usize },
    ConfigList,
}

/// The tabs of the settings window.
#[derive(PartialEq, Eq, Structural, Clone, Copy, Debug)]
pub enum ConfigTab {
    Commands,
    Positioning,
    Hotkey,
    Autostart,
}

impl Default for ConfigTab {
    /// The settings window opens on the command list.
    fn default() -> (r: Self)
        ensures
            r == ConfigTab::Commands,
    {
        ConfigTab::Commands
    }
}

/// The window arrangement each mode uses.
#[derive(PartialEq, Eq, Structural, Clone, Copy, Debug)]
pub enum ViewportLayout {
    /// Parked off screen, still processing events.
    Hidden,
    /// The borderless, always-on-top input line at the configured position.
    Overlay,
    /// A decorated program or group dialog.
    Dialog,
    /// The decorated settings window.
    Settings,
}

/// The tray menu's items.
#[derive(PartialEq, Eq, Structural, Clone, Copy, Debug)]
pub enum MenuAction {
    OpenInput,
    EditConfigurations,
    Quit,
}

/// Whether a mode shows a program or group dialog.
pub open spec fn is_dialog_mode(mode: AppMode) -> bool {
    match mode {
        AppMode::NewConfig | AppMode::EditConfig { .. } | AppMode::NewGroup
        | AppMode::EditGroup { .. } => true,
        _ => false,
    }
}

/// The window arrangement of a mode.
pub open spec fn layout_of(mode: AppMode) -> ViewportLayout {
    match mode {
        AppMode::Idle => ViewportLayout::Hidden,
        AppMode::Input => ViewportLayout::Overlay,
        AppMode::ConfigList => ViewportLayout::Settings,
        _ => ViewportLayout::Dialog,
    }
}

/// The launcher's state.
pub struct KeykoffApp {
    pub mode: AppMode,
    pub mode_changed: bool,
    pub needs_focus: bool,
    pub focus_requested: bool,
    pub quit_requested: bool,
    pub config: AppConfig,
    pub search_text: String,
    pub filtered_indices: Vec<usize>,
    pub selected_index: usize,
    pub dialog_name: String,
    pub dialog_caption: String,
    pub dialog_executable: String,
    pub dialog_parameters: String,
    pub dialog_working_directory: String,
    pub dialog_error: Option<String>,
    pub dialog_return_to_idle: bool,
    pub dialog_members: Vec<String>,
    pub dialog_member_input: String,
    pub dialog_suggestion_index: usize,
    pub config_tab: ConfigTab,
}

/// The overlay's search state is the same in both.
pub open spec fn overlay_same(a: KeykoffApp, b: KeykoffApp) -> bool {
    &&& a.search_text == b.search_text
    &&& a.filtered_indices == b.filtered_indices
    &&& a.selected_index == b.selected_index
}

/// The dialogs' fields are the same in both.
pub open spec fn dialog_same(a: KeykoffApp, b: KeykoffApp) -> bool {
    &&& a.dialog_name == b.dialog_name
    &&& a.dialog_caption == b.dialog_caption
    &&& a.dialog_executable == b.dialog_executable
    &&& a.dialog_parameters == b.dialog_parameters
    &&& a.dialog_working_directory == b.dialog_working_directory
    &&& a.dialog_error == b.dialog_error
    &&& a.dialog_return_to_idle == b.dialog_return_to_idle
    &&& a.dialog_members == b.dialog_members
    &&& a.dialog_member_input == b.dialog_member_input
    &&& a.dialog_suggestion_index == b.dialog_suggestion_index
}

/// The pending window requests and the settings tab are the same in both.
pub open spec fn requests_same(a: KeykoffApp, b: KeykoffApp) -> bool {
    &&& a.focus_requested == b.focus_requested
    &&& a.quit_requested == b.quit_requested
    &&& a.config_tab == b.config_tab
}

/// `after` is `before` switched to `mode` (see `KeykoffApp::set_mode`).
pub open spec fn switched(before: KeykoffApp, after: KeykoffApp, mode: AppMode) -> bool {
    &&& after.mode == mode
    &&& after.mode_changed
    &&& after.config == before.config
    &&& dialog_same(after, before)
    &&& requests_same(after, before)
    &&& if mode == AppMode::Input {
        &&& after.search_text@.len() == 0
        &&& after.filtered_indices@.len() == 0
        &&& after.selected_index == 0
        &&& after.needs_focus
    } else {
        &&& overlay_same(after, before)
        &&& after.needs_focus == (before.needs_focus || is_dialog_mode(mode))
    }
}

/// `after` is `before` after a press of the global hotkey: from hidden the
/// overlay opens; anywhere else the window is asked to the front, and in the
/// overlay the input line is asked for its focus again, keeping the search.
pub open spec fn hotkey_pressed(before: KeykoffApp, after: KeykoffApp) -> bool {
    if before.mode == AppMode::Idle {
        switched(before, after, AppMode::Input)
    } else {
        after == KeykoffApp {
            focus_requested: true,
            needs_focus: before.needs_focus || before.mode == AppMode::Input,
            ..before
        }
    }
}

/// The dialog fields hold program `p`, with no error shown.
pub open spec fn holds_program(a: KeykoffApp, p: crate::config::ProgramView) -> bool {
    &&& a.dialog_name@ == p.name
    &&& a.dialog_caption@ == p.caption
    &&& a.dialog_executable@ == p.executable
    &&& a.dialog_parameters@ == p.parameters
    &&& a.dialog_working_directory@ == p.working_directory
    &&& a.dialog_error is None
}

/// The dialog fields hold group `g`, with an empty member input and no error shown.
pub open spec fn holds_group(a: KeykoffApp, g: crate::config::GroupView) -> bool {
    &&& a.dialog_name@ == g.name
    &&& a.dialog_caption@ == g.caption
    &&& a.dialog_members.deep_view() == g.members
    &&& a.dialog_member_input@.len() == 0
    &&& a.dialog_suggestion_index == 0
    &&& a.dialog_error is None
}

impl KeykoffApp {
    /// A launcher with the given settings, hidden, with empty overlay and dialogs.
    pub fn new(config: AppConfig) -> (r: Self)
        ensures
            r.mode == AppMode::Idle,
            r.mode_changed,
            !r.needs_focus,
            !r.focus_requested,
            !r.quit_requested,
            r.config == config,
            r.search_text@.len() == 0,
            r.filtered_indices@.len() == 0,
            r.selected_index == 0,
            r.dialog_name@.len() == 0,
            r.dialog_caption@.len() == 0,
            r.dialog_executable@.len() == 0,
            r.dialog_parameters@.len() == 0,
            r.dialog_working_directory@.len() == 0,
            r.dialog_error is None,
            !r.dialog_return_to_idle,
            r.dialog_members@.len() == 0,
            r.dialog_member_input@.len() == 0,
            r.dialog_suggestion_index == 0,
            r.config_tab == ConfigTab::Commands,
    {
        KeykoffApp {
            mode: AppMode::Idle,
            mode_changed: true,
            needs_focus: false,
            focus_requested: false,
            quit_requested: false,
            config,
            search_text: String::new(),
            filtered_indices: Vec::new(),
            selected_index: 0,
            dialog_name: String::new(),
            dialog_caption: String::new(),
            dialog_executable: String::new(),
            dialog_parameters: String::new(),
            dialog_working_directory: String::new(),
            dialog_error: None,
            dialog_return_to_idle: false,
            dialog_members: Vec::new(),
            dialog_member_input: String::new(),
            dialog_suggestion_index: 0,
            config_tab: ConfigTab::default(),
        }
    }

    /// Switches to `mode`. Entering the overlay empties the search and asks
    /// for the input line's focus; entering a dialog asks for its first
    /// field's focus. The window arrangement is marked for an update.
    pub fn set_mode(&mut self, mode: AppMode)
        ensures
            switched(*old(self), *final(self), mode),
    {
        match mode {
            AppMode::Input => {
                self.search_text = String::new();
                self.filtered_indices.clear();
                self.selected_index = 0;
                self.needs_focus = true;
            },
            AppMode::NewConfig | AppMode::EditConfig { .. } | AppMode::NewGroup
            | AppMode::EditGroup { .. } => {
                self.needs_focus = true;
            },
            _ => {},
        }
        self.mode = mode;
        self.mode_changed = true;
    }

    /// When the mode changed since the last call, clears that mark and returns
    /// the window arrangement the current mode needs; otherwise returns `None`.
    pub fn take_mode_change(&mut self) -> (r: Option<ViewportLayout>)
        ensures
            r == if old(self).mode_changed {
                Some(layout_of(old(self).mode))
            } else {
                None
            },
            !final(self).mode_changed,
            final(self).mode == old(self).mode,
            final(self).needs_focus == old(self).needs_focus,
            final(self).config == old(self).config,
            overlay_same(*final(self), *old(self)),
            dialog_same(*final(self), *old(self)),
            requests_same(*final(self), *old(self)),
    {
        if !self.mode_changed {
            return None;
        }
        self.mode_changed = false;
        Some(
            match self.mode {
                AppMode::Idle => ViewportLayout::Hidden,
                AppMode::Input => ViewportLayout::Overlay,
                AppMode::ConfigList => ViewportLayout::Settings,
                _ => ViewportLayout::Dialog,
            },
        )
    }

    /// Handles a tray menu item: open the overlay, open the settings, or ask to quit.
    pub fn on_menu(&mut self, action: MenuAction)
        ensures
            match action {
                MenuAction::OpenInput => switched(*old(self), *final(self), AppMode::Input),
                MenuAction::EditConfigurations => switched(
                    *old(self),
                    *final(self),
                    AppMode::ConfigList,
                ),
                MenuAction::Quit => {
                    &&& final(self).quit_requested
                    &&& final(self).mode == old(self).mode
                    &&& final(self).mode_changed == old(self).mode_changed
                    &&& final(self).needs_focus == old(self).needs_focus
                    &&& final(self).focus_requested == old(self).focus_requested
                    &&& final(self).config_tab == old(self).config_tab
                    &&& final(self).config == old(self).config
                    &&& overlay_same(*final(self), *old(self))
                    &&& dialog_same(*final(self), *old(self))
                },
            },
    {
        match action {
            MenuAction::OpenInput => self.set_mode(AppMode::Input),
            MenuAction::EditConfigurations => self.set_mode(AppMode::ConfigList),
            MenuAction::Quit => {
                self.quit_requested = true;
            },
        }
    }

    /// Handles a press of the global hotkey: from hidden it opens the overlay;
    /// anywhere else it brings the window back to the front, and in the overlay
    /// it also gives the input line its focus again, keeping what was typed.
    pub fn on_hotkey_pressed(&mut self)
        ensures
            hotkey_pressed(*old(self), *final(self)),
    {
        match self.mode {
            AppMode::Idle => self.set_mode(AppMode::Input),
            AppMode::Input => {
                self.focus_requested = true;
                self.needs_focus = true;
            },
            _ => {
                self.focus_requested = true;
            },
        }
    }

    /// Handles a global hotkey event: only a press of the bound hotkey counts
    /// (see `on_hotkey_pressed`); a release, or another hotkey, changes nothing.
    pub fn on_hotkey_event(&mut self, is_bound_hotkey: bool, pressed: bool)
        ensures
            is_bound_hotkey && pressed ==> hotkey_pressed(*old(self), *final(self)),
            !(is_bound_hotkey && pressed) ==> *final(self) == *old(self),
    {
        if is_bound_hotkey && pressed {
            self.on_hotkey_pressed();
        }
    }

    /// Returns whether the window should be brought to the front now, and clears the request.
    pub fn take_focus_request(&mut self) -> (r: bool)
        ensures
            r == old(self).focus_requested,
            !final(self).focus_requested,
            final(self).mode == old(self).mode,
            final(self).mode_changed == old(self).mode_changed,
            final(self).needs_focus == old(self).needs_focus,
            final(self).quit_requested == old(self).quit_requested,
            final(self).config_tab == old(self).config_tab,
            final(self).config == old(self).config,
            overlay_same(*final(self), *old(self)),
            dialog_same(*final(self), *old(self)),
    {
        let r = self.focus_requested;
        self.focus_requested = false;
        r
    }

    /// Handles the window's close button: the window closes only after a quit
    /// was requested from the tray; otherwise closing just hides it.
    /// Returns whether to let the window close.
    pub fn on_close_requested(&mut self) -> (allow: bool)
        ensures
            allow == old(self).quit_requested,
            allow ==> *final(self) == *old(self),
            !allow ==> switched(*old(self), *final(self), AppMode::Idle),
    {
        if self.quit_requested {
            return true;
        }
        self.set_mode(AppMode::Idle);
        false
    }

    /// Loads the program at `index` into the dialog fields, clears the
    /// dialog's error and starts the dialog without an origin to return to
    /// (a caller opening it from the overlay sets that afterwards); does
    /// nothing when there is no program there.
    pub fn populate_program_dialog_from_index(&mut self, index: usize)
        ensures
            match index_program(old(self).config.entries.deep_view(), index as int) {
                Some(p) => {
                    &&& holds_program(*final(self), p)
                    &&& !final(self).dialog_return_to_idle
                    &&& final(self).dialog_members == old(self).dialog_members
                    &&& final(self).dialog_member_input == old(self).dialog_member_input
                    &&& final(self).dialog_suggestion_index == old(self).dialog_suggestion_index
                    &&& final(self).mode == old(self).mode
                    &&& final(self).mode_changed == old(self).mode_changed
                    &&& final(self).needs_focus == old(self).needs_focus
                    &&& final(self).config == old(self).config
                    &&& overlay_same(*final(self), *old(self))
                    &&& requests_same(*final(self), *old(self))
                },
                None => *final(self) == *old(self),
            },
    {
        if index < self.config.entries.len() {
            match &self.config.entries[index] {
                Entry::Program(p) => {
                    self.dialog_name = p.name.clone();
                    self.dialog_caption = p.caption.clone();
                    self.dialog_executable = p.executable.clone();
                    self.dialog_parameters = p.parameters.clone();
                    self.dialog_working_directory = p.working_directory.clone();
                    self.dialog_error = None;
                    self.dialog_return_to_idle = false;
                },
                Entry::Group(_) => {},
            }
        }
    }

    /// Loads the group at `index` into the dialog fields (empty member input,
    /// first suggestion highlighted, no error, no origin to return to); does
    /// nothing when there is no group there.
    pub fn populate_group_dialog_from_index(&mut self, index: usize)
        ensures
            match index_group(old(self).config.entries.deep_view(), index as int) {
                Some(g) => {
                    &&& holds_group(*final(self), g)
                    &&& final(self).dialog_executable == old(self).dialog_executable
                    &&& final(self).dialog_parameters == old(self).dialog_parameters
                    &&& final(self).dialog_working_directory == old(self).dialog_working_directory
                    &&& !final(self).dialog_return_to_idle
                    &&& final(self).mode == old(self).mode
                    &&& final(self).mode_changed == old(self).mode_changed
                    &&& final(self).needs_focus == old(self).needs_focus
                    &&& final(self).config == old(self).config
                    &&& overlay_same(*final(self), *old(self))
                    &&& requests_same(*final(self), *old(self))
                },
                None => *final(self) == *old(self),
            },
    {
        if index < self.config.entries.len() {
            match &self.config.entries[index] {
                Entry::Group(g) => {
                    self.dialog_name = g.name.clone();
                    self.dialog_caption = g.caption.clone();
                    self.dialog_members = copy_strings(&g.members);
                    self.dialog_member_input = String::new();
                    self.dialog_suggestion_index = 0;
                    self.dialog_error = None;
                    self.dialog_return_to_idle = false;
                },
                Entry::Program(_) => {},
            }
        }
    }

    /// Empties the program dialog's fields and its error; the dialog starts
    /// without an origin to return to.
    pub fn clear_dialog_fields(&mut self)
        ensures
            final(self).dialog_name@.len() == 0,
            final(self).dialog_caption@.len() == 0,
            final(self).dialog_executable@.len() == 0,
            final(self).dialog_parameters@.len() == 0,
            final(self).dialog_working_directory@.len() == 0,
            final(self).dialog_error is None,
            !final(self).dialog_return_to_idle,
            final(self).dialog_members == old(self).dialog_members,
            final(self).dialog_member_input == old(self).dialog_member_input,
            final(self).dialog_suggestion_index == old(self).dialog_suggestion_index,
            final(self).mode == old(self).mode,
            final(self).mode_changed == old(self).mode_changed,
            final(self).needs_focus == old(self).needs_focus,
            final(self).config == old(self).config,
            overlay_same(*final(self), *old(self)),
            requests_same(*final(self), *old(self)),
    {
        self.dialog_name = String::new();
        self.dialog_caption = String::new();
        self.dialog_executable = String::new();
        self.dialog_parameters = String::new();
        self.dialog_working_directory = String::new();
        self.dialog_error = None;
        self.dialog_return_to_idle = false;
    }

    /// Empties the group dialog's fields, its member input and its error; the
    /// dialog starts without an origin to return to.
    pub fn clear_group_dialog_fields(&mut self)
        ensures
            final(self).dialog_name@.len() == 0,
            final(self).dialog_caption@.len() == 0,
            final(self).dialog_members@.len() == 0,
            final(self).dialog_member_input@.len() == 0,
            final(self).dialog_suggestion_index == 0,
            final(self).dialog_error is None,
            final(self).dialog_executable == old(self).dialog_executable,
            final(self).dialog_parameters == old(self).dialog_parameters,
            final(self).dialog_working_directory == old(self).dialog_working_directory,
            !final(self).dialog_return_to_idle,
            final(self).mode == old(self).mode,
            final(self).mode_changed == old(self).mode_changed,
            final(self).needs_focus == old(self).needs_focus,
            final(self).config == old(self).config,
            overlay_same(*final(self), *old(self)),
            requests_same(*final(self), *old(self)),
    {
        self.dialog_name = String::new();
        self.dialog_caption = String::new();
        self.dialog_members.clear();
        self.dialog_member_input = String::new();
        self.dialog_suggestion_index = 0;
        self.dialog_error = None;
        self.dialog_return_to_idle = false;
    }

    /// Records how launching the entry at `config_index` went. `failure` is the
    /// message of a program that could not be started. A failed program opens
    /// in the edit dialog with that message, and the dialog returns to hidden
    /// afterwards; anything else (success, a group, no entry) hides the window.
    pub fn do_launch(&mut self, config_index: usize, failure: Option<String>)
        ensures
            match (index_program(old(self).config.entries.deep_view(), config_index as int), failure) {
                (Some(p), Some(e)) => {
                    &&& final(self).mode == AppMode::EditConfig { index: config_index }
                    &&& final(self).mode_changed
                    &&& final(self).needs_focus
                    &&& final(self).dialog_name@ == p.name
                    &&& final(self).dialog_caption@ == p.caption
                    &&& final(self).dialog_executable@ == p.executable
                    &&& final(self).dialog_parameters@ == p.parameters
                    &&& final(self).dialog_working_directory@ == p.working_directory
                    &&& final(self).dialog_error == Some(e)
                    &&& final(self).dialog_return_to_idle
                    &&& final(self).dialog_members == old(self).dialog_members
                    &&& final(self).dialog_member_input == old(self).dialog_member_input
                    &&& final(self).dialog_suggestion_index == old(self).dialog_suggestion_index
                    &&& final(self).config == old(self).config
                    &&& overlay_same(*final(self), *old(self))
                    &&& requests_same(*final(self), *old(self))
                },
                _ => switched(*old(self), *final(self), AppMode::Idle),
            },
    {
        let is_program = config_index < self.config.entries.len() && match &self.config.entries[config_index] {
            Entry::Program(_) => true,
            Entry::Group(_) => false,
        };
        match failure {
            Some(e) => {
                if is_program {
                    self.populate_program_dialog_from_index(config_index);
                    self.dialog_error = Some(e);
                    self.dialog_return_to_idle = true;
                    self.set_mode(AppMode::EditConfig { index: config_index });
                } else {
                    self.set_mode(AppMode::Idle);
                }
            },
            None => self.set_mode(AppMode::Idle),
        }
    }
}

/// The program at `i`, if there is one.
pub open spec fn index_program(es: Seq<EntryView>, i: int) -> Option<crate::config::ProgramView> {
    if 0 <= i < es.len() {
        match es[i] {
            EntryView::Program(p) => Some(p),
            EntryView::Group(_) => None,
        }
    } else {
        None
    }
}

/// The group at `i`, if there is one.
pub open spec fn index_group(es: Seq<EntryView>, i: int) -> Option<crate::config::GroupView> {
    if 0 <= i < es.len() {
        match es[i] {
            EntryView::Group(g) => Some(g),
            EntryView::Program(_) => None,
        }
    } else {
        None
    }
}

/// What a press of the global hotkey does, by the mode it finds: hidden, the
/// overlay opens with an empty search; in the overlay, the overlay stays with
/// its search and its input line asks for focus again; in any other window
/// (the settings or a dialog) that window stays as it is, with its fields,
/// and is only asked to the front.
pub proof fn lemma_hotkey_press_by_mode(before: KeykoffApp, after: KeykoffApp)
    requires
        hotkey_pressed(before, after),
    ensures
        before.mode == AppMode::Idle ==> after.mode == AppMode::Input && after.search_text@.len()
            == 0 && after.needs_focus,
        before.mode == AppMode::Input ==> after.mode == AppMode::Input && after.search_text
            == before.search_text && after.filtered_indices == before.filtered_indices
            && after.needs_focus && after.focus_requested,
        before.mode != AppMode::Idle && before.mode != AppMode::Input ==> {
            &&& after.mode == before.mode
            &&& after.focus_requested
            &&& after.mode_changed == before.mode_changed
            &&& after.config == before.config
            &&& dialog_same(after, before)
            &&& overlay_same(after, before)
        },
{
}

} // verus!
