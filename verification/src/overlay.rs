//! The input overlay: numbered results and what each key does.

use vstd::prelude::*;
use crate::app::{
    index_group, index_program, holds_group, holds_program, switched, AppMode, KeykoffApp,
    overlay_same, requests_same,
};
use crate::config::{Entry, EntryView};
use crate::text::{append_str, decimal, push_decimal};

verus! {

/// How many results the overlay lists at most.
pub const MAX_VISIBLE: usize = 9;

/// The keys and clicks the overlay saw in one frame.
pub struct OverlayInput {
    pub enter: bool,
    /// Enter pressed together with CTRL.
    pub ctrl_enter: bool,
    pub escape: bool,
    pub down: bool,
    pub up: bool,
    /// The digit key pressed, as a result position: key 1 is position 0.
    pub number: Option<usize>,
    /// The entry whose row was clicked.
    pub clicked: Option<usize>,
    /// The entry whose row was right-clicked.
    pub secondary_clicked: Option<usize>,
}

/// What the overlay decided.
#[derive(PartialEq, Eq, Structural, Clone, Copy, Debug)]
pub enum OverlayDecision {
    Nothing,
    /// Escape: hide the window.
    Hide,
    /// Enter without results: open the new-program dialog with the search text as name.
    NewConfig,
    /// Open the edit dialog of this entry.
    Edit(usize),
    /// Launch this entry.
    Launch(usize),
}

/// The number of result rows shown.
pub open spec fn visible_count_spec(a: KeykoffApp) -> int {
    if a.filtered_indices@.len() < 9 {
        a.filtered_indices@.len() as int
    } else {
        9
    }
}

/// The highlighted row after the arrow keys: down moves on while another row
/// is shown, up moves back while not on the first row.
pub open spec fn nav_selection(a: KeykoffApp, input: OverlayInput) -> usize {
    let s1 = if input.down && a.selected_index + 1 < visible_count_spec(a) {
        (a.selected_index + 1) as usize
    } else {
        a.selected_index
    };
    if input.up && s1 > 0 {
        (s1 - 1) as usize
    } else {
        s1
    }
}

/// The state after the arrow keys moved the highlight.
pub open spec fn navigated(a: KeykoffApp, input: OverlayInput) -> KeykoffApp {
    KeykoffApp { selected_index: nav_selection(a, input), ..a }
}

/// The result at a position, if there is one.
pub open spec fn result_at(a: KeykoffApp, pos: int) -> Option<usize> {
    if 0 <= pos < a.filtered_indices@.len() {
        Some(a.filtered_indices@[pos])
    } else {
        None
    }
}

/// What the overlay does with the input, judged on the state after navigation.
/// Escape hides. A digit launches the result at its position, CTRL+Enter edits
/// the highlighted result, Enter launches it, and Enter with no highlighted
/// result but some search text opens the new-program dialog. Clicks launch,
/// right-clicks edit, and editing wins over launching.
pub open spec fn overlay_decision(a: KeykoffApp, input: OverlayInput) -> OverlayDecision {
    if input.escape {
        OverlayDecision::Hide
    } else {
        let by_number = match input.number {
            Some(n) => match result_at(a, n as int) {
                Some(i) => Some(i),
                None => input.clicked,
            },
            None => input.clicked,
        };
        let selected = result_at(a, a.selected_index as int);
        if !input.ctrl_enter && input.enter && selected is None && a.search_text@.len() > 0 {
            OverlayDecision::NewConfig
        } else {
            let edit = if input.ctrl_enter && selected is Some {
                selected
            } else {
                input.secondary_clicked
            };
            let launch = if !input.ctrl_enter && input.enter && selected is Some {
                selected
            } else {
                by_number
            };
            match edit {
                Some(i) => OverlayDecision::Edit(i),
                None => match launch {
                    Some(i) => OverlayDecision::Launch(i),
                    None => OverlayDecision::Nothing,
                },
            }
        }
    }
}

/// `after` is `before` with the entry at `index` opened for editing from the
/// overlay (an index with no entry changes nothing).
pub open spec fn opened_for_edit(before: KeykoffApp, after: KeykoffApp, index: usize) -> bool {
    let es = before.config.entries.deep_view();
    match index_program(es, index as int) {
        Some(p) => {
            &&& holds_program(after, p)
            &&& after.mode == AppMode::EditConfig { index }
            &&& after.dialog_members == before.dialog_members
            &&& after.dialog_member_input == before.dialog_member_input
            &&& after.dialog_suggestion_index == before.dialog_suggestion_index
            &&& edit_opened_common(before, after)
        },
        None => match index_group(es, index as int) {
            Some(g) => {
                &&& holds_group(after, g)
                &&& after.mode == AppMode::EditGroup { index }
                &&& after.dialog_executable == before.dialog_executable
                &&& after.dialog_parameters == before.dialog_parameters
                &&& after.dialog_working_directory == before.dialog_working_directory
                &&& edit_opened_common(before, after)
            },
            None => after == before,
        },
    }
}

/// What every dialog opened from the overlay shares.
pub open spec fn edit_opened_common(before: KeykoffApp, after: KeykoffApp) -> bool {
    &&& after.dialog_return_to_idle
    &&& after.mode_changed
    &&& after.needs_focus
    &&& after.config == before.config
    &&& overlay_same(after, before)
    &&& requests_same(after, before)
}

/// `after` is `before` with the new-program dialog opened, named after the search text.
pub open spec fn new_config_opened(before: KeykoffApp, after: KeykoffApp) -> bool {
    &&& after.dialog_name@ == before.search_text@
    &&& after.dialog_caption@.len() == 0
    &&& after.dialog_executable@.len() == 0
    &&& after.dialog_parameters@.len() == 0
    &&& after.dialog_working_directory@.len() == 0
    &&& after.dialog_error is None
    &&& after.dialog_members == before.dialog_members
    &&& after.dialog_member_input == before.dialog_member_input
    &&& after.dialog_suggestion_index == before.dialog_suggestion_index
    &&& after.mode == AppMode::NewConfig
    &&& edit_opened_common(before, after)
}

/// The caption of an entry.
pub open spec fn caption_of(e: EntryView) -> Seq<char> {
    match e {
        EntryView::Program(p) => p.caption,
        EntryView::Group(g) => g.caption,
    }
}

/// The text of the result row at position `d` (counting from 0): its number
/// from 1, two spaces, the name, and ` - ` with the caption when there is one.
pub open spec fn row_text(d: nat, name: Seq<char>, caption: Seq<char>) -> Seq<char> {
    decimal(d + 1) + "  "@ + name + if caption.len() == 0 {
        Seq::empty()
    } else {
        " - "@ + caption
    }
}

impl KeykoffApp {
    /// The number of result rows shown: at most nine.
    pub fn visible_count(&self) -> (r: usize)
        ensures
            r == visible_count_spec(*self),
    {
        if self.filtered_indices.len() < MAX_VISIBLE {
            self.filtered_indices.len()
        } else {
            MAX_VISIBLE
        }
    }

    /// The texts of the shown result rows (see `row_text`).
    pub fn overlay_rows(&self) -> (r: Vec<String>)
        requires
            forall|q: int|
                0 <= q < self.filtered_indices@.len() ==> #[trigger] self.filtered_indices@[q]
                    < self.config.entries@.len(),
        ensures
            r@.len() == visible_count_spec(*self),
            forall|d: int|
                0 <= d < r@.len() ==> (#[trigger] r@[d])@ == row_text(
                    d as nat,
                    crate::config::name_of(
                        self.config.entries.deep_view()[self.filtered_indices@[d] as int],
                    ),
                    caption_of(self.config.entries.deep_view()[self.filtered_indices@[d] as int]),
                ),
    {
        let n = self.visible_count();
        let mut rows: Vec<String> = Vec::new();
        let mut d: usize = 0;
        while d < n
            invariant
                n == visible_count_spec(*self),
                n <= self.filtered_indices@.len(),
                d <= n,
                rows@.len() == d,
                forall|q: int|
                    0 <= q < self.filtered_indices@.len() ==> #[trigger] self.filtered_indices@[q]
                        < self.config.entries@.len(),
                forall|k: int|
                    0 <= k < d ==> (#[trigger] rows@[k])@ == row_text(
                        k as nat,
                        crate::config::name_of(
                            self.config.entries.deep_view()[self.filtered_indices@[k] as int],
                        ),
                        caption_of(self.config.entries.deep_view()[self.filtered_indices@[k] as int]),
                    ),
            decreases n - d,
        {
            let idx = self.filtered_indices[d];
            let (name, caption) = match &self.config.entries[idx] {
                Entry::Program(p) => (p.name.as_str(), p.caption.as_str()),
                Entry::Group(g) => (g.name.as_str(), g.caption.as_str()),
            };
            let mut text = String::new();
            push_decimal(&mut text, d + 1);
            let text = append_str(text.as_str(), "  ");
            let text = append_str(text.as_str(), name);
            let text = if caption.is_empty() {
                text
            } else {
                let t = append_str(text.as_str(), " - ");
                append_str(t.as_str(), caption)
            };
            assert(text@ =~= row_text(d as nat, name@, caption@));
            rows.push(text);
            d = d + 1;
        }
        rows
    }

    /// Opens the entry at `index` for editing from the overlay: its program or
    /// group dialog, which returns to hidden afterwards. No entry, no change.
    pub fn open_edit(&mut self, index: usize)
        ensures
            opened_for_edit(*old(self), *final(self), index),
    {
        if index < self.config.entries.len() {
            let is_program = match &self.config.entries[index] {
                Entry::Program(_) => true,
                Entry::Group(_) => false,
            };
            if is_program {
                self.populate_program_dialog_from_index(index);
                self.dialog_return_to_idle = true;
                self.set_mode(AppMode::EditConfig { index });
            } else {
                self.populate_group_dialog_from_index(index);
                self.dialog_return_to_idle = true;
                self.set_mode(AppMode::EditGroup { index });
            }
        }
    }

    /// Moves the highlight with the arrow keys (see `nav_selection`).
    pub fn navigate_overlay(&mut self, input: &OverlayInput)
        ensures
            *final(self) == navigated(*old(self), *input),
    {
        let visible = self.visible_count();
        let mut s = self.selected_index;
        if input.down && s < visible && s + 1 < visible {
            s = s + 1;
        }
        if input.up && s > 0 {
            s = s - 1;
        }
        self.selected_index = s;
    }

    /// What the overlay does with the input in the current state (see `overlay_decision`).
    pub fn decide_overlay(&self, input: &OverlayInput) -> (r: OverlayDecision)
        ensures
            r == overlay_decision(*self, *input),
    {
        if input.escape {
            return OverlayDecision::Hide;
        }
        let by_number = match input.number {
            Some(n) => {
                if n < self.filtered_indices.len() {
                    Some(self.filtered_indices[n])
                } else {
                    input.clicked
                }
            },
            None => input.clicked,
        };
        let selected = if self.selected_index < self.filtered_indices.len() {
            Some(self.filtered_indices[self.selected_index])
        } else {
            None
        };
        if !input.ctrl_enter && input.enter && selected.is_none() && !self.search_text.as_str().is_empty() {
            return OverlayDecision::NewConfig;
        }
        let edit = if input.ctrl_enter && selected.is_some() {
            selected
        } else {
            input.secondary_clicked
        };
        let launch = if !input.ctrl_enter && input.enter && selected.is_some() {
            selected
        } else {
            by_number
        };
        match edit {
            Some(i) => OverlayDecision::Edit(i),
            None => match launch {
                Some(i) => OverlayDecision::Launch(i),
                None => OverlayDecision::Nothing,
            },
        }
    }

    /// Opens the new-program dialog named after the search text; the dialog
    /// returns to hidden afterwards.
    pub fn start_new_config_from_search(&mut self)
        ensures
            new_config_opened(*old(self), *final(self)),
    {
        self.dialog_name = self.search_text.clone();
        self.dialog_caption = String::new();
        self.dialog_executable = String::new();
        self.dialog_parameters = String::new();
        self.dialog_working_directory = String::new();
        self.dialog_error = None;
        self.dialog_return_to_idle = true;
        self.set_mode(AppMode::NewConfig);
    }

    /// Handles one frame of overlay input: escape hides; otherwise the
    /// highlight moves, then the new-program dialog or an edit dialog opens as
    /// decided. A launch is returned for the caller to carry out (and report
    /// back through `do_launch`).
    pub fn handle_overlay_input(&mut self, input: OverlayInput) -> (r: OverlayDecision)
        ensures
            input.escape ==> r == OverlayDecision::Hide && switched(*old(self), *final(self), AppMode::Idle),
            !input.escape ==> r == overlay_decision(navigated(*old(self), input), input),
            !input.escape ==> match r {
                OverlayDecision::NewConfig => new_config_opened(navigated(*old(self), input), *final(self)),
                OverlayDecision::Edit(i) => opened_for_edit(navigated(*old(self), input), *final(self), i),
                _ => *final(self) == navigated(*old(self), input),
            },
    {
        if input.escape {
            self.set_mode(AppMode::Idle);
            return OverlayDecision::Hide;
        }
        self.navigate_overlay(&input);
        let d = self.decide_overlay(&input);
        match d {
            OverlayDecision::NewConfig => self.start_new_config_from_search(),
            OverlayDecision::Edit(i) => self.open_edit(i),
            _ => {},
        }
        d
    }
}

/// The overlay's keys and clicks, for every state and input:
/// - Escape hides, whatever else happened;
/// - without Escape or Enter, a right-click on a result edits that entry;
/// - without Escape, Enter or a right-click, a digit naming a shown result
///   launches that result's entry;
/// - without Escape, Enter, a right-click or a digit naming a result, a click
///   on a result's row launches that entry;
/// - Enter (without CTRL) launches the highlighted result's entry when there
///   is one and nothing was right-clicked, and with no highlighted result but
///   some search text opens the new-program dialog;
/// - CTRL+Enter edits the highlighted result's entry.
pub proof fn lemma_overlay_keys(a: KeykoffApp, input: OverlayInput)
    ensures
        input.escape ==> overlay_decision(a, input) == OverlayDecision::Hide,
        !input.escape && !input.enter && !input.ctrl_enter && input.secondary_clicked is Some
            ==> overlay_decision(a, input) == OverlayDecision::Edit(input.secondary_clicked->0),
        forall|n: usize|
            !input.escape && !input.enter && !input.ctrl_enter && input.secondary_clicked is None
                && input.number == Some(n) && n < a.filtered_indices@.len()
                ==> overlay_decision(a, input) == OverlayDecision::Launch(a.filtered_indices@[n as int]),
        forall|i: usize|
            !input.escape && !input.enter && !input.ctrl_enter && input.secondary_clicked is None
                && input.clicked == Some(i) && (input.number is None || input.number->0
                >= a.filtered_indices@.len()) ==> overlay_decision(a, input)
                == OverlayDecision::Launch(i),
        !input.escape && input.enter && !input.ctrl_enter && input.secondary_clicked is None
            && a.selected_index < a.filtered_indices@.len() ==> overlay_decision(a, input)
            == OverlayDecision::Launch(a.filtered_indices@[a.selected_index as int]),
        !input.escape && input.enter && !input.ctrl_enter && a.selected_index
            >= a.filtered_indices@.len() && a.search_text@.len() > 0 ==> overlay_decision(a, input)
            == OverlayDecision::NewConfig,
        !input.escape && input.ctrl_enter && a.selected_index < a.filtered_indices@.len()
            ==> overlay_decision(a, input) == OverlayDecision::Edit(
            a.filtered_indices@[a.selected_index as int],
        ),
{
}

} // verus!
