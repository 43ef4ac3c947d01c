//! Saving and deleting entries from the dialogs, keeping names unique, group
//! references intact and groups free of cycles.

use vstd::prelude::*;
use crate::app::{switched, AppMode, KeykoffApp, overlay_same, requests_same};
use crate::config::{
    cascade_delete, cascade_rename, copy_strings, entry_name, has_name, lemma_first_match_unique,
    lemma_spec_find, lemma_without_contains, members_of, name_of, names_unique, pruned_entries,
    references_valid, rename_member, renamed_entries, renamed_members_spec, spec_find, Entry,
    EntryView, GroupView, ProgramView, RunConfig, RunGroup,
};
use crate::groups::{
    acyclic, lemma_acyclic_after_change, lemma_acyclic_after_rename, lemma_spec_find_same_names,
    reaches, steps_to,
};
use crate::text::{append_str, str_eq, trim, trim_seq, unquote, unquote_seq};

verus! {

/// The position being edited when the mode is the program dialog's edit mode.
pub open spec fn program_edit_index(mode: AppMode) -> Option<int> {
    match mode {
        AppMode::EditConfig { index } => Some(index as int),
        _ => None,
    }
}

/// The position being edited when the mode is the group dialog's edit mode.
pub open spec fn group_edit_index(mode: AppMode) -> Option<int> {
    match mode {
        AppMode::EditGroup { index } => Some(index as int),
        _ => None,
    }
}

/// Some entry other than the one at `editing` already carries `name`.
pub open spec fn name_taken(es: Seq<EntryView>, name: Seq<char>, editing: Option<int>) -> bool {
    exists|i: int| 0 <= i < es.len() && name_of(#[trigger] es[i]) == name && editing != Some(i)
}

/// The entries after storing `e`: appended when `slot` is `None`, otherwise
/// put at `slot`, after which references to `prev` (the replaced entry's name,
/// when it is carried over) are renamed to the name of `e`.
pub open spec fn stored(
    es: Seq<EntryView>,
    slot: Option<int>,
    e: EntryView,
    prev: Option<Seq<char>>,
) -> Seq<EntryView> {
    match slot {
        None => es.push(e),
        Some(i) => {
            let updated = es.update(i, e);
            match prev {
                Some(p) => renamed_entries(updated, p, name_of(e)),
                None => updated,
            }
        },
    }
}

/// The name of the program at `i`, if a program is there.
pub open spec fn program_name_at(es: Seq<EntryView>, i: int) -> Option<Seq<char>> {
    match es[i] {
        EntryView::Program(p) => Some(p.name),
        EntryView::Group(_) => None,
    }
}

/// The name of the group at `i`, if a group is there.
pub open spec fn group_name_at(es: Seq<EntryView>, i: int) -> Option<Seq<char>> {
    match es[i] {
        EntryView::Group(g) => Some(g.name),
        EntryView::Program(_) => None,
    }
}

/// The program the program dialog's fields describe: every field trimmed, and
/// the executable also stripped of surrounding double quotes.
pub open spec fn dialog_program(a: KeykoffApp) -> ProgramView {
    ProgramView {
        name: trim_seq(a.dialog_name@),
        caption: trim_seq(a.dialog_caption@),
        executable: unquote_seq(trim_seq(a.dialog_executable@)),
        parameters: trim_seq(a.dialog_parameters@),
        working_directory: trim_seq(a.dialog_working_directory@),
    }
}

/// The group the group dialog's fields describe: name and caption trimmed.
pub open spec fn dialog_group(a: KeykoffApp) -> GroupView {
    GroupView {
        name: trim_seq(a.dialog_name@),
        caption: trim_seq(a.dialog_caption@),
        members: a.dialog_members.deep_view(),
    }
}

/// The entries after saving program `p` from the program dialog in `mode`.
pub open spec fn after_program_save(es: Seq<EntryView>, mode: AppMode, p: ProgramView) -> Seq<
    EntryView,
> {
    match mode {
        AppMode::NewConfig => stored(es, None, EntryView::Program(p), None),
        AppMode::EditConfig { index } => stored(
            es,
            Some(index as int),
            EntryView::Program(p),
            program_name_at(es, index as int),
        ),
        _ => es,
    }
}

/// The entries after saving group `g` from the group dialog in `mode`.
pub open spec fn after_group_save(es: Seq<EntryView>, mode: AppMode, g: GroupView) -> Seq<
    EntryView,
> {
    match mode {
        AppMode::NewGroup => stored(es, None, EntryView::Group(g), None),
        AppMode::EditGroup { index } => stored(
            es,
            Some(index as int),
            EntryView::Group(g),
            group_name_at(es, index as int),
        ),
        _ => es,
    }
}

/// Why the program dialog refuses to save, if it does.
pub open spec fn program_save_refusal(a: KeykoffApp) -> Option<Seq<char>> {
    let name = trim_seq(a.dialog_name@);
    if name.len() == 0 {
        Some("Name is required."@)
    } else if trim_seq(a.dialog_executable@).len() == 0 {
        Some("Executable path is required."@)
    } else if name_taken(a.config.entries.deep_view(), name, program_edit_index(a.mode)) {
        Some("Name already used by another entry."@)
    } else {
        None
    }
}

/// Why the group dialog refuses to save, if it does.
pub open spec fn group_save_refusal(a: KeykoffApp) -> Option<Seq<char>> {
    let name = trim_seq(a.dialog_name@);
    if name.len() == 0 {
        Some("Name is required."@)
    } else if a.dialog_members@.len() == 0 {
        Some("At least one member is required."@)
    } else if name_taken(a.config.entries.deep_view(), name, group_edit_index(a.mode)) {
        Some("Name already used by another entry."@)
    } else {
        None
    }
}

/// The edit dialog shows an existing entry.
pub open spec fn edits_existing(a: KeykoffApp) -> bool {
    match a.mode {
        AppMode::EditConfig { index } => index < a.config.entries@.len(),
        AppMode::EditGroup { index } => index < a.config.entries@.len(),
        _ => false,
    }
}

/// `after` is `before` with the entry its edit dialog shows deleted (its name
/// removed from every group) and the dialog left as after a save.
pub open spec fn deleted_edited_entry(before: KeykoffApp, after: KeykoffApp) -> bool {
    let i = match before.mode {
        AppMode::EditConfig { index } => index as int,
        AppMode::EditGroup { index } => index as int,
        _ => 0,
    };
    let es = before.config.entries.deep_view();
    &&& after.config.entries.deep_view() == pruned_entries(es.remove(i), name_of(es[i]))
    &&& after.config.hotkey_key == before.config.hotkey_key
    &&& after.config.hotkey_alt == before.config.hotkey_alt
    &&& after.config.hotkey_ctrl == before.config.hotkey_ctrl
    &&& switched(
        KeykoffApp { config: after.config, dialog_return_to_idle: false, ..before },
        after,
        if before.dialog_return_to_idle {
            AppMode::Idle
        } else {
            AppMode::ConfigList
        },
    )
}

/// Only the entries and the dialog's error may differ between the two.
pub open spec fn same_but_entries_and_error(a: KeykoffApp, b: KeykoffApp) -> bool {
    &&& a.mode == b.mode
    &&& a.mode_changed == b.mode_changed
    &&& a.needs_focus == b.needs_focus
    &&& a.config.hotkey_key == b.config.hotkey_key
    &&& a.config.hotkey_alt == b.config.hotkey_alt
    &&& a.config.hotkey_ctrl == b.config.hotkey_ctrl
    &&& overlay_same(a, b)
    &&& requests_same(a, b)
    &&& a.dialog_name == b.dialog_name
    &&& a.dialog_caption == b.dialog_caption
    &&& a.dialog_executable == b.dialog_executable
    &&& a.dialog_parameters == b.dialog_parameters
    &&& a.dialog_working_directory == b.dialog_working_directory
    &&& a.dialog_return_to_idle == b.dialog_return_to_idle
    &&& a.dialog_members == b.dialog_members
    &&& a.dialog_member_input == b.dialog_member_input
    &&& a.dialog_suggestion_index == b.dialog_suggestion_index
}

/// The position of an edit mode is a valid position.
pub open spec fn edit_index_valid(a: KeykoffApp) -> bool {
    match a.mode {
        AppMode::EditConfig { index } => index < a.config.entries@.len(),
        AppMode::EditGroup { index } => index < a.config.entries@.len(),
        _ => true,
    }
}

fn name_taken_in(entries: &[Entry], name: &str, editing: Option<usize>) -> (r: bool)
    ensures
        r == name_taken(
            entries.deep_view(),
            name@,
            match editing {
                Some(i) => Some(i as int),
                None => None,
            },
        ),
{
    let ghost es = entries.deep_view();
    let ghost ed = match editing {
        Some(i) => Some(i as int),
        None => None::<int>,
    };
    let mut i: usize = 0;
    while i < entries.len()
        invariant
            es == entries.deep_view(),
            i <= es.len(),
            ed == match editing {
                Some(k) => Some(k as int),
                None => None::<int>,
            },
            forall|j: int| 0 <= j < i ==> !(name_of(#[trigger] es[j]) == name@ && ed != Some(j)),
        decreases es.len() - i,
    {
        let is_self = match editing {
            Some(k) => k == i,
            None => false,
        };
        if !is_self && str_eq(entry_name(&entries[i]), name) {
            assert(name_of(es[i as int]) == name@ && ed != Some(i as int));
            return true;
        }
        i = i + 1;
    }
    false
}

impl KeykoffApp {
    /// Saves the program dialog. The name must be non-empty once trimmed, the
    /// executable must be non-empty once trimmed, and no other entry may carry
    /// the name; otherwise the reason is shown as the dialog's error and
    /// nothing is stored. On success the program (see `dialog_program`) is
    /// appended (new) or replaces the edited one, and when an edited program
    /// changed its name, groups referring to the old name follow it.
    /// Writing the settings to disk is up to the caller.
    pub fn save_dialog_entry(&mut self) -> (r: bool)
        requires
            program_save_refusal(*old(self)) is None ==> edit_index_valid(*old(self)),
        ensures
            r == (program_save_refusal(*old(self)) is None),
            same_but_entries_and_error(*final(self), *old(self)),
            r ==> final(self).config.entries.deep_view() == after_program_save(
                old(self).config.entries.deep_view(),
                old(self).mode,
                dialog_program(*old(self)),
            ),
            r ==> final(self).dialog_error == old(self).dialog_error,
            !r ==> final(self).config.entries == old(self).config.entries,
            !r ==> final(self).dialog_error is Some && final(self).dialog_error->0@
                == program_save_refusal(*old(self))->0,
    {
        let name = trim(self.dialog_name.as_str());
        if name.as_str().is_empty() {
            self.dialog_error = Some("Name is required.".to_owned());
            return false;
        }
        let executable = trim(self.dialog_executable.as_str());
        if executable.as_str().is_empty() {
            self.dialog_error = Some("Executable path is required.".to_owned());
            return false;
        }
        let editing = match self.mode {
            AppMode::EditConfig { index } => Some(index),
            _ => None,
        };
        if name_taken_in(self.config.entries.as_slice(), name.as_str(), editing) {
            self.dialog_error = Some("Name already used by another entry.".to_owned());
            return false;
        }
        let program = RunConfig {
            name: name.clone(),
            caption: trim(self.dialog_caption.as_str()),
            executable: unquote(executable.as_str()),
            parameters: trim(self.dialog_parameters.as_str()),
            working_directory: trim(self.dialog_working_directory.as_str()),
        };
        let ghost es = self.config.entries.deep_view();
        let ghost p = dialog_program(*old(self));
        match self.mode {
            AppMode::NewConfig => {
                self.config.entries.push(Entry::Program(program));
                assert(self.config.entries.deep_view() =~= es.push(EntryView::Program(p)));
            },
            AppMode::EditConfig { index } => {
                let prev: Option<String> = match &self.config.entries[index] {
                    Entry::Program(q) => Some(q.name.clone()),
                    Entry::Group(_) => None,
                };
                self.config.entries.set(index, Entry::Program(program));
                assert(self.config.entries.deep_view() =~= es.update(
                    index as int,
                    EntryView::Program(p),
                ));
                match prev {
                    Some(prev_name) => {
                        cascade_rename(
                            self.config.entries.as_mut_slice(),
                            prev_name.as_str(),
                            name.as_str(),
                        );
                    },
                    None => {},
                }
            },
            _ => {},
        }
        true
    }

    /// Saves the group dialog. The name must be non-empty once trimmed, the
    /// group must have at least one member, and no other entry may carry the
    /// name; otherwise the reason is shown as the dialog's error and nothing
    /// is stored. On success the group (see `dialog_group`) is appended (new)
    /// or replaces the edited one, and when an edited group changed its name,
    /// groups referring to the old name follow it.
    /// Writing the settings to disk is up to the caller.
    pub fn save_group_dialog(&mut self) -> (r: bool)
        requires
            group_save_refusal(*old(self)) is None ==> edit_index_valid(*old(self)),
        ensures
            r == (group_save_refusal(*old(self)) is None),
            same_but_entries_and_error(*final(self), *old(self)),
            r ==> final(self).config.entries.deep_view() == after_group_save(
                old(self).config.entries.deep_view(),
                old(self).mode,
                dialog_group(*old(self)),
            ),
            r ==> final(self).dialog_error == old(self).dialog_error,
            !r ==> final(self).config.entries == old(self).config.entries,
            !r ==> final(self).dialog_error is Some && final(self).dialog_error->0@
                == group_save_refusal(*old(self))->0,
    {
        let name = trim(self.dialog_name.as_str());
        if name.as_str().is_empty() {
            self.dialog_error = Some("Name is required.".to_owned());
            return false;
        }
        if self.dialog_members.len() == 0 {
            self.dialog_error = Some("At least one member is required.".to_owned());
            return false;
        }
        let editing = match self.mode {
            AppMode::EditGroup { index } => Some(index),
            _ => None,
        };
        if name_taken_in(self.config.entries.as_slice(), name.as_str(), editing) {
            self.dialog_error = Some("Name already used by another entry.".to_owned());
            return false;
        }
        let group = RunGroup {
            name: name.clone(),
            caption: trim(self.dialog_caption.as_str()),
            members: copy_strings(&self.dialog_members),
        };
        let ghost es = self.config.entries.deep_view();
        let ghost g = dialog_group(*old(self));
        match self.mode {
            AppMode::NewGroup => {
                self.config.entries.push(Entry::Group(group));
                assert(self.config.entries.deep_view() =~= es.push(EntryView::Group(g)));
            },
            AppMode::EditGroup { index } => {
                let prev: Option<String> = match &self.config.entries[index] {
                    Entry::Group(q) => Some(q.name.clone()),
                    Entry::Program(_) => None,
                };
                self.config.entries.set(index, Entry::Group(group));
                assert(self.config.entries.deep_view() =~= es.update(
                    index as int,
                    EntryView::Group(g),
                ));
                match prev {
                    Some(prev_name) => {
                        cascade_rename(
                            self.config.entries.as_mut_slice(),
                            prev_name.as_str(),
                            name.as_str(),
                        );
                    },
                    None => {},
                }
            },
            _ => {},
        }
        true
    }

    /// Deletes the entry at `index` and removes its name from every group.
    pub fn delete_entry(&mut self, index: usize)
        requires
            index < old(self).config.entries@.len(),
        ensures
            final(self).config.entries.deep_view() == pruned_entries(
                old(self).config.entries.deep_view().remove(index as int),
                name_of(old(self).config.entries.deep_view()[index as int]),
            ),
            same_but_entries_and_error(*final(self), *old(self)),
            final(self).dialog_error == old(self).dialog_error,
    {
        let name = entry_name(&self.config.entries[index]).to_owned();
        let ghost es = self.config.entries.deep_view();
        self.config.entries.remove(index);
        assert(self.config.entries.deep_view() =~= es.remove(index as int));
        cascade_delete(self.config.entries.as_mut_slice(), name.as_str());
    }

    /// Shows that writing the settings failed.
    pub fn record_save_failure(&mut self, detail: &str)
        ensures
            final(self).dialog_error is Some,
            final(self).dialog_error->0@ == "Failed to save: "@ + detail@,
            same_but_entries_and_error(*final(self), *old(self)),
            final(self).config.entries == old(self).config.entries,
    {
        self.dialog_error = Some(append_str("Failed to save: ", detail));
    }

    /// Leaves a dialog after it did its work: back to hidden when it was opened
    /// from the overlay or a failed launch, otherwise back to the settings.
    /// Either way the next dialog starts without that origin.
    pub fn leave_dialog(&mut self)
        ensures
            switched(
                (KeykoffApp { dialog_return_to_idle: false, ..*old(self) }),
                *final(self),
                if old(self).dialog_return_to_idle {
                    AppMode::Idle
                } else {
                    AppMode::ConfigList
                },
            ),
    {
        let target = if self.dialog_return_to_idle {
            AppMode::Idle
        } else {
            AppMode::ConfigList
        };
        self.dialog_return_to_idle = false;
        self.set_mode(target);
    }

    /// Abandons a dialog: the window hides, and the next dialog starts without
    /// this one's origin.
    pub fn cancel_dialog(&mut self)
        ensures
            switched(
                (KeykoffApp { dialog_return_to_idle: false, ..*old(self) }),
                *final(self),
                AppMode::Idle,
            ),
    {
        self.dialog_return_to_idle = false;
        self.set_mode(AppMode::Idle);
    }

    /// Deletes the entry the open edit dialog shows and leaves the dialog.
    /// Returns whether anything was deleted (only an edit dialog on an
    /// existing entry deletes).
    pub fn delete_edited_entry(&mut self) -> (r: bool)
        ensures
            r == edits_existing(*old(self)),
            !r ==> *final(self) == *old(self),
            r ==> deleted_edited_entry(*old(self), *final(self)),
    {
        let index = match self.mode {
            AppMode::EditConfig { index } => index,
            AppMode::EditGroup { index } => index,
            _ => {
                return false;
            },
        };
        if index >= self.config.entries.len() {
            return false;
        }
        self.delete_entry(index);
        self.leave_dialog();
        true
    }
}

proof fn lemma_renamed_names(es: Seq<EntryView>, old: Seq<char>, new: Seq<char>, i: int)
    requires
        0 <= i < es.len(),
    ensures
        name_of(renamed_entries(es, old, new)[i]) == name_of(es[i]),
{
}

/// Saving a program that the dialog accepted keeps entry names unique.
pub proof fn lemma_program_save_keeps_names_unique(es: Seq<EntryView>, mode: AppMode, p: ProgramView)
    requires
        names_unique(es),
        !name_taken(es, p.name, program_edit_index(mode)),
        match mode {
            AppMode::EditConfig { index } => index < es.len(),
            _ => true,
        },
    ensures
        names_unique(after_program_save(es, mode, p)),
{
    lemma_store_keeps_names_unique(es, program_edit_index(mode), EntryView::Program(p), match mode {
        AppMode::EditConfig { index } => program_name_at(es, index as int),
        _ => None,
    }, is_store_mode_program(mode));
}

/// Saving a group that the dialog accepted keeps entry names unique.
pub proof fn lemma_group_save_keeps_names_unique(es: Seq<EntryView>, mode: AppMode, g: GroupView)
    requires
        names_unique(es),
        !name_taken(es, g.name, group_edit_index(mode)),
        match mode {
            AppMode::EditGroup { index } => index < es.len(),
            _ => true,
        },
    ensures
        names_unique(after_group_save(es, mode, g)),
{
    lemma_store_keeps_names_unique(es, group_edit_index(mode), EntryView::Group(g), match mode {
        AppMode::EditGroup { index } => group_name_at(es, index as int),
        _ => None,
    }, is_store_mode_group(mode));
}

spec fn is_store_mode_program(mode: AppMode) -> bool {
    match mode {
        AppMode::NewConfig | AppMode::EditConfig { .. } => true,
        _ => false,
    }
}

spec fn is_store_mode_group(mode: AppMode) -> bool {
    match mode {
        AppMode::NewGroup | AppMode::EditGroup { .. } => true,
        _ => false,
    }
}

proof fn lemma_store_keeps_names_unique(
    es: Seq<EntryView>,
    slot: Option<int>,
    e: EntryView,
    prev: Option<Seq<char>>,
    stores: bool,
)
    requires
        names_unique(es),
        !name_taken(es, name_of(e), slot),
        match slot {
            Some(i) => 0 <= i < es.len(),
            None => true,
        },
    ensures
        names_unique(if stores { stored(es, slot, e, prev) } else { es }),
{
    if stores {
        let r = stored(es, slot, e, prev);
        match slot {
            None => {
                assert forall|i: int, j: int|
                    0 <= i < r.len() && 0 <= j < r.len() && i != j implies name_of(#[trigger] r[i])
                        != name_of(#[trigger] r[j]) by {
                    if i == es.len() {
                        assert(name_of(es[j]) != name_of(e));
                    } else if j == es.len() {
                        assert(name_of(es[i]) != name_of(e));
                    }
                }
            },
            Some(k) => {
                let u = es.update(k, e);
                assert forall|i: int, j: int|
                    0 <= i < r.len() && 0 <= j < r.len() && i != j implies name_of(#[trigger] r[i])
                        != name_of(#[trigger] r[j]) by {
                    if let Some(pn) = prev {
                        lemma_renamed_names(u, pn, name_of(e), i);
                        lemma_renamed_names(u, pn, name_of(e), j);
                    }
                    if i == k {
                        assert(name_of(es[j]) != name_of(e));
                    } else if j == k {
                        assert(name_of(es[i]) != name_of(e));
                    }
                }
            },
        }
    }
}

/// Saving a program that the dialog accepted keeps every group reference
/// pointing at an existing entry: a renamed program takes its references with it.
pub proof fn lemma_program_save_keeps_references_valid(
    es: Seq<EntryView>,
    mode: AppMode,
    p: ProgramView,
)
    requires
        references_valid(es),
        names_unique(es),
        !name_taken(es, p.name, program_edit_index(mode)),
        match mode {
            AppMode::EditConfig { index } => index < es.len() && es[index as int] is Program,
            _ => true,
        },
    ensures
        references_valid(after_program_save(es, mode, p)),
{
    let e = EntryView::Program(p);
    match mode {
        AppMode::NewConfig => {
            let r = es.push(e);
            assert forall|i: int, m: Seq<char>|
                0 <= i < r.len() && #[trigger] members_of(r[i]).contains(m) implies has_name(r, m) by {
                if i < es.len() {
                    assert(members_of(es[i]).contains(m));
                    let k = choose|k: int| 0 <= k < es.len() && name_of(#[trigger] es[k]) == m;
                    assert(name_of(r[k]) == m);
                }
            }
        },
        AppMode::EditConfig { index } => {
            let i0 = index as int;
            let prev = name_of(es[i0]);
            let u = es.update(i0, e);
            let r = renamed_entries(u, prev, p.name);
            assert(after_program_save(es, mode, p) == r);
            assert forall|i: int, m: Seq<char>|
                0 <= i < r.len() && #[trigger] members_of(r[i]).contains(m) implies has_name(r, m) by {
                assert(i != i0);
                let ms = members_of(es[i]);
                let q = choose|q: int| 0 <= q < members_of(r[i]).len() && members_of(r[i])[q] == m;
                assert(m == rename_member(ms[q], prev, p.name));
                assert(ms.contains(ms[q]));
                if ms[q] == prev {
                    assert(name_of(r[i0]) == p.name);
                } else {
                    let k = choose|k: int| 0 <= k < es.len() && name_of(#[trigger] es[k]) == ms[q];
                    assert(k != i0);
                    assert(name_of(r[k]) == m);
                }
            }
        },
        _ => {},
    }
}

/// Saving a group that the dialog accepted keeps every group reference
/// pointing at an existing entry, when each of its members names an entry: a
/// renamed group takes its references with it.
pub proof fn lemma_group_save_keeps_references_valid(es: Seq<EntryView>, mode: AppMode, g: GroupView)
    requires
        references_valid(es),
        !name_taken(es, g.name, group_edit_index(mode)),
        match mode {
            AppMode::EditGroup { index } => index < es.len() && es[index as int] is Group,
            _ => true,
        },
        forall|m: Seq<char>| #[trigger] g.members.contains(m) ==> has_name(es, m),
    ensures
        references_valid(after_group_save(es, mode, g)),
{
    let e = EntryView::Group(g);
    match mode {
        AppMode::NewGroup => {
            let r = es.push(e);
            assert forall|i: int, m: Seq<char>|
                0 <= i < r.len() && #[trigger] members_of(r[i]).contains(m) implies has_name(r, m) by {
                if i < es.len() {
                    assert(members_of(es[i]).contains(m));
                }
                let k = choose|k: int| 0 <= k < es.len() && name_of(#[trigger] es[k]) == m;
                assert(name_of(r[k]) == m);
            }
        },
        AppMode::EditGroup { index } => {
            let i0 = index as int;
            let prev = name_of(es[i0]);
            let u = es.update(i0, e);
            let r = renamed_entries(u, prev, g.name);
            assert(after_group_save(es, mode, g) == r);
            assert forall|i: int, m: Seq<char>|
                0 <= i < r.len() && #[trigger] members_of(r[i]).contains(m) implies has_name(r, m) by {
                let ms = members_of(u[i]);
                let q = choose|q: int| 0 <= q < members_of(r[i]).len() && members_of(r[i])[q] == m;
                assert(m == rename_member(ms[q], prev, g.name));
                assert(ms.contains(ms[q]));
                if ms[q] == prev {
                    assert(name_of(r[i0]) == g.name);
                } else {
                    if i != i0 {
                        assert(members_of(es[i]).contains(ms[q]));
                    }
                    let k = choose|k: int| 0 <= k < es.len() && name_of(#[trigger] es[k]) == ms[q];
                    assert(k != i0);
                    assert(name_of(r[k]) == m);
                }
            }
        },
        _ => {},
    }
}

/// The members the group at the edited position had (none for a new group).
pub open spec fn prior_members(es: Seq<EntryView>, mode: AppMode) -> Seq<Seq<char>> {
    match mode {
        AppMode::EditGroup { index } => if index < es.len() {
            members_of(es[index as int])
        } else {
            Seq::empty()
        },
        _ => Seq::empty(),
    }
}

/// The name the saved group had before: the edited entry's name, or the
/// dialog's name for a new group.
pub open spec fn prior_name(es: Seq<EntryView>, mode: AppMode, g: GroupView) -> Seq<char> {
    match mode {
        AppMode::EditGroup { index } => if index < es.len() {
            name_of(es[index as int])
        } else {
            g.name
        },
        _ => g.name,
    }
}

proof fn lemma_group_update_keeps_acyclic(es: Seq<EntryView>, i: int, g: GroupView)
    requires
        acyclic(es),
        0 <= i < es.len(),
        name_of(es[i]) == g.name,
        forall|c: Seq<char>|
            #[trigger] g.members.contains(c) && !members_of(es[i]).contains(c) ==> !reaches(
                es,
                c,
                g.name,
            ),
    ensures
        acyclic(es.update(i, EntryView::Group(g))),
{
    let es1 = es.update(i, EntryView::Group(g));
    let fresh = Set::new(|c: Seq<char>| g.members.contains(c) && !members_of(es[i]).contains(c));
    assert forall|k: int| 0 <= k < es.len() implies name_of(#[trigger] es1[k]) == name_of(es[k]) by {}
    assert forall|a: Seq<char>, b: Seq<char>| #[trigger] steps_to(es1, a, b) implies steps_to(
        es,
        a,
        b,
    ) || (a == g.name && fresh.contains(b)) by {
        lemma_spec_find_same_names(es, es1, a);
        lemma_spec_find(es, a);
        if spec_find(es, a) == Some(i) {
            assert(a == g.name);
            if !members_of(es[i]).contains(b) {
                assert(fresh.contains(b));
            }
        }
    }
    lemma_acyclic_after_change(es, es1, g.name, fresh);
}

/// Saving a group keeps the groups free of cycles when no member it adds
/// leads back to the name the group had (which the member suggestions see
/// to). A new group takes a name no entry carries; an edited group that is
/// renamed takes a name no other entry carries, and its members name entries,
/// in settings whose names are unique and whose references are valid.
pub proof fn lemma_group_save_keeps_acyclic(es: Seq<EntryView>, mode: AppMode, g: GroupView)
    requires
        acyclic(es),
        match mode {
            AppMode::NewGroup => !has_name(es, g.name),
            AppMode::EditGroup { index } => index < es.len() && es[index as int] is Group && (g.name
                != name_of(es[index as int]) ==> {
                &&& names_unique(es)
                &&& references_valid(es)
                &&& !name_taken(es, g.name, Some(index as int))
                &&& forall|m: Seq<char>| #[trigger] g.members.contains(m) ==> has_name(es, m)
            }),
            _ => true,
        },
        forall|c: Seq<char>|
            #[trigger] g.members.contains(c) && !prior_members(es, mode).contains(c) ==> !reaches(
                es,
                c,
                prior_name(es, mode, g),
            ),
    ensures
        acyclic(after_group_save(es, mode, g)),
{
    match mode {
        AppMode::NewGroup => {
            let fresh = Set::new(|c: Seq<char>| g.members.contains(c));
            let es2 = es.push(EntryView::Group(g));
            assert(after_group_save(es, mode, g) == es2);
            assert forall|a: Seq<char>, b: Seq<char>| #[trigger] steps_to(es2, a, b) implies steps_to(
                es,
                a,
                b,
            ) || (a == g.name && fresh.contains(b)) by {
                lemma_spec_find(es2, a);
                let k = spec_find(es2, a)->0;
                if k < es.len() {
                    assert forall|j: int| 0 <= j < k implies name_of(#[trigger] es[j]) != a by {
                        assert(es2[j] == es[j]);
                    }
                    assert(es2[k] == es[k]);
                    lemma_first_match_unique(es, a, k);
                } else {
                    assert(a == g.name);
                    assert(members_of(es2[k]) == g.members);
                }
            }
            lemma_acyclic_after_change(es, es2, g.name, fresh);
        },
        AppMode::EditGroup { index } => {
            let i = index as int;
            let o = name_of(es[i]);
            let n = g.name;
            let go = GroupView { name: o, caption: g.caption, members: g.members };
            let es2 = es.update(i, EntryView::Group(go));
            lemma_group_update_keeps_acyclic(es, i, go);
            let es1 = es.update(i, EntryView::Group(g));
            let es3 = renamed_entries(es1, o, n);
            assert(after_group_save(es, mode, g) == es3);
            if n == o {
                assert(go == g);
                assert(es3 =~= es2) by {
                    assert forall|k: int| 0 <= k < es1.len() implies #[trigger] es3[k] == es1[k] by {
                        match es1[k] {
                            EntryView::Program(_) => {},
                            EntryView::Group(gg) => {
                                assert(renamed_members_spec(gg.members, o, o) =~= gg.members);
                            },
                        }
                    }
                }
            } else {
                assert forall|k: int| 0 <= k < es2.len() implies name_of(#[trigger] es2[k]) != n
                    && name_of(es3[k]) == rename_member(name_of(es2[k]), o, n) by {
                    if k != i {
                        assert(name_of(es[k]) != o);
                    }
                }
                assert forall|k: int| 0 <= k < es2.len() implies members_of(#[trigger] es3[k])
                    == renamed_members_spec(members_of(es2[k]), o, n) by {
                    match es1[k] {
                        EntryView::Program(_) => {
                            assert(renamed_members_spec(Seq::empty(), o, n) =~= Seq::<Seq<char>>::empty());
                        },
                        EntryView::Group(gg) => {},
                    }
                }
                assert forall|k: int, m: Seq<char>|
                    0 <= k < es2.len() && #[trigger] members_of(es2[k]).contains(m) implies m != n by {
                    if k != i {
                        assert(members_of(es[k]).contains(m));
                    }
                    assert(has_name(es, m));
                    let j = choose|j: int| 0 <= j < es.len() && name_of(#[trigger] es[j]) == m;
                    if m == n {
                        assert(j == i);
                    }
                }
                lemma_acyclic_after_rename(es2, es3, o, n);
            }
        },
        _ => {},
    }
}

/// Deleting an entry keeps every group reference pointing at an existing entry.
pub proof fn lemma_delete_keeps_references_valid(es: Seq<EntryView>, index: int)
    requires
        references_valid(es),
        0 <= index < es.len(),
    ensures
        references_valid(pruned_entries(es.remove(index), name_of(es[index]))),
{
    let x = name_of(es[index]);
    let rm = es.remove(index);
    let r = pruned_entries(rm, x);
    assert forall|i: int, m: Seq<char>|
        0 <= i < r.len() && #[trigger] members_of(r[i]).contains(m) implies has_name(r, m) by {
        let j = if i < index { i } else { i + 1 };
        assert(rm[i] == es[j]);
        match rm[i] {
            EntryView::Program(_) => {},
            EntryView::Group(g) => {
                lemma_without_contains(g.members, x, m);
            },
        }
        assert(members_of(es[j]).contains(m));
        let k = choose|k: int| 0 <= k < es.len() && name_of(#[trigger] es[k]) == m;
        assert(k != index);
        let k2 = if k < index { k } else { k - 1 };
        assert(rm[k2] == es[k]);
        assert(name_of(r[k2]) == m);
    }
}

/// Deleting an entry keeps entry names unique.
pub proof fn lemma_delete_keeps_names_unique(es: Seq<EntryView>, index: int)
    requires
        names_unique(es),
        0 <= index < es.len(),
    ensures
        names_unique(pruned_entries(es.remove(index), name_of(es[index]))),
{
    let rm = es.remove(index);
    let r = pruned_entries(rm, name_of(es[index]));
    assert forall|i: int, j: int|
        0 <= i < r.len() && 0 <= j < r.len() && i != j implies name_of(#[trigger] r[i]) != name_of(
            #[trigger] r[j],
        ) by {
        let i2 = if i < index { i } else { i + 1 };
        let j2 = if j < index { j } else { j + 1 };
        assert(rm[i] == es[i2]);
        assert(rm[j] == es[j2]);
    }
}

} // verus!
